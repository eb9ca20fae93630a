//! What the build knows of all posts: the index that listings, feeds and
//! related-post lookups are made from.

use vstd::prelude::*;

use crate::order::{
    is_stable_order, keys_of, lex_le, lex_le_from, reordered, sorted_order, text_key, Keyed,
};
use crate::select::{kept, lemma_kept_step};
use crate::text::str_eq;
use crate::types::{Category, Frontmatter, PostDate};

verus! {

/// What is known of one post.
#[derive(Debug, Clone, PartialEq, Eq)]
pub struct PostMetadata {
    pub slug: String,
    pub category: String,
    pub frontmatter: Frontmatter,
}

/// The key that puts later dates first.
pub open spec fn newest_first_key(date: PostDate) -> Seq<int> {
    seq![-(date.seconds as int), -(date.nanos as int)]
}

impl Keyed for PostMetadata {
    open spec fn key(&self) -> Seq<int> {
        newest_first_key(self.frontmatter.date)
    }

    fn key_le(&self, other: &Self) -> (le: bool) {
        let a = &self.frontmatter.date;
        let b = &other.frontmatter.date;
        let ghost ka = newest_first_key(*a);
        let ghost kb = newest_first_key(*b);
        assert(lex_le(ka, kb) == if ka[0] != kb[0] {
            ka[0] < kb[0]
        } else {
            lex_le_from(ka, kb, 1)
        });
        assert(lex_le_from(ka, kb, 1) == if ka[1] != kb[1] {
            ka[1] < kb[1]
        } else {
            lex_le_from(ka, kb, 2)
        });
        assert(lex_le_from(ka, kb, 2));
        a.seconds > b.seconds || (a.seconds == b.seconds && a.nanos >= b.nanos)
    }
}

impl<'a> Keyed for &'a PostMetadata {
    open spec fn key(&self) -> Seq<int> {
        newest_first_key(self.frontmatter.date)
    }

    fn key_le(&self, other: &Self) -> (le: bool) {
        (*self).key_le(*other)
    }
}

/// A tag with the number of posts that carry it.
#[derive(Debug, Clone, PartialEq, Eq)]
pub struct TagCount {
    pub tag: String,
    pub count: usize,
}

impl Keyed for TagCount {
    open spec fn key(&self) -> Seq<int> {
        seq![-(self.count as int)]
    }

    fn key_le(&self, other: &Self) -> (le: bool) {
        let ghost ka = seq![-(self.count as int)];
        let ghost kb = seq![-(other.count as int)];
        assert(lex_le(ka, kb) == if ka[0] != kb[0] {
            ka[0] < kb[0]
        } else {
            lex_le_from(ka, kb, 1)
        });
        assert(lex_le_from(ka, kb, 1));
        self.count >= other.count
    }
}

/// The posts that are no drafts.
pub open spec fn published() -> spec_fn(PostMetadata) -> bool {
    |post: PostMetadata| !post.frontmatter.draft
}

/// The posts with another slug than `slug`.
pub open spec fn other_slug(slug: Seq<char>) -> spec_fn(PostMetadata) -> bool {
    |post: PostMetadata| post.slug@ != slug
}

/// The posts of the category `name`.
pub open spec fn in_category(name: Seq<char>) -> spec_fn(PostMetadata) -> bool {
    |post: PostMetadata| post.category@ == name
}

/// Whether `tags` holds `tag`.
pub open spec fn holds_tag(tags: Seq<String>, tag: Seq<char>) -> bool {
    exists|i: int| 0 <= i < tags.len() && (#[trigger] tags[i])@ == tag
}

/// The posts that carry the tag `tag`.
pub open spec fn tagged(tag: Seq<char>) -> spec_fn(PostMetadata) -> bool {
    |post: PostMetadata| holds_tag(post.frontmatter.tags@, tag)
}

/// The posts that a vector of references to posts stands for.
pub open spec fn posts_of(refs: Seq<&PostMetadata>) -> Seq<PostMetadata> {
    refs.map_values(|r: &PostMetadata| *r)
}

/// `names` is in strictly ascending order, as `str` orders texts.
pub open spec fn strictly_ascending(names: Seq<String>) -> bool {
    forall|i: int, j: int|
        0 <= i < j < names.len() ==> lex_le(
            text_key((#[trigger] names[i])@),
            text_key((#[trigger] names[j])@),
        ) && names[i]@ != names[j]@
}

/// `names` holds `name`.
pub open spec fn lists(names: Seq<String>, name: Seq<char>) -> bool {
    exists|i: int| 0 <= i < names.len() && (#[trigger] names[i])@ == name
}

/// Whether a post of the category `name` is among `posts`.
pub open spec fn category_occurs(posts: Seq<PostMetadata>, name: Seq<char>) -> bool {
    exists|i: int| 0 <= i < posts.len() && (#[trigger] posts[i]).category@ == name
}

/// Whether a post with the tag `tag` is among `posts`.
pub open spec fn tag_occurs(posts: Seq<PostMetadata>, tag: Seq<char>) -> bool {
    exists|i: int| 0 <= i < posts.len() && holds_tag((#[trigger] posts[i]).frontmatter.tags@, tag)
}

/// The index of all posts and the categories of the site.
#[derive(Debug)]
pub struct MetadataCache {
    pub version: String,
    pub posts: Vec<PostMetadata>,
    pub category_info: Vec<Category>,
}

/// Whether `tags` holds `tag`.
pub fn has_tag(tags: &Vec<String>, tag: &str) -> (found: bool)
    ensures
        found == holds_tag(tags@, tag@),
{
    let mut i: usize = 0;
    while i < tags.len()
        invariant
            i <= tags@.len(),
            forall|j: int| 0 <= j < i ==> (#[trigger] tags@[j])@ != tag@,
        decreases tags.len() - i,
    {
        if str_eq(tags[i].as_str(), tag) {
            return true;
        }
        i += 1;
    }
    false
}

/// Sorts `names` and drops repeated ones.
fn sorted_distinct(names: &Vec<String>) -> (out: Vec<String>)
    ensures
        strictly_ascending(out@),
        forall|name: Seq<char>| lists(out@, name) <==> lists(names@, name),
{
    let order = sorted_order::<String, int>(names, Ghost(Seq::new(names@.len(), |i: int| i)));
    let ghost keys = keys_of(names@);
    let mut out: Vec<String> = Vec::new();
    let mut k: usize = 0;
    while k < order.len()
        invariant
            k <= order@.len(),
            keys == keys_of(names@),
            is_stable_order(keys, order@),
            strictly_ascending(out@),
            forall|name: Seq<char>|
                lists(out@, name) <==> exists|i: int|
                    0 <= i < k && (#[trigger] names@[order@[i] as int])@ == name,
            k > 0 ==> out@.len() > 0 && out@[out@.len() - 1]@ == names@[order@[k - 1] as int]@,
            k == 0 ==> out@.len() == 0,
        decreases order.len() - k,
    {
        let name = &names[order[k]];
        let ghost before = out@;
        assert(keys[order@[k as int] as int] == text_key(name@));
        let repeated = k > 0 && str_eq(out[out.len() - 1].as_str(), name.as_str());
        if !repeated {
            out.push(name.clone());
            proof {
                assert forall|i: int, j: int| 0 <= i < j < out@.len() implies lex_le(
                    text_key((#[trigger] out@[i])@),
                    text_key((#[trigger] out@[j])@),
                ) && out@[i]@ != out@[j]@ by {
                    if j == out@.len() - 1 {
                        // Everything listed so far stands at an earlier place of
                        // the sorted order, and the last of it differs from `name`.
                        assert(lists(before, before[i]@));
                        let at = choose|at: int|
                            0 <= at < k && (#[trigger] names@[order@[at] as int])@ == before[i]@;
                        assert(keys[order@[at] as int] == text_key(before[i]@));
                        assert(lex_le(keys[order@[at] as int], keys[order@[k as int] as int]));
                        if before[i]@ == name@ {
                            let last = before.len() - 1;
                            assert(k > 0);
                            assert(before[last]@ != name@);
                            if i < last {
                                assert(lex_le(text_key(before[i]@), text_key(before[last]@)));
                                assert(keys[order@[k - 1] as int] == text_key(before[last]@));
                                assert(lex_le(
                                    keys[order@[k - 1] as int],
                                    keys[order@[k as int] as int],
                                ));
                                assert(text_key(before[last]@).subrange(0, 0) == text_key(
                                    name@,
                                ).subrange(0, 0));
                                crate::order::lemma_lex_antisymmetric(
                                    text_key(before[last]@),
                                    text_key(name@),
                                    0,
                                );
                                crate::order::lemma_text_key_injective(before[last]@, name@);
                            }
                        }
                    } else {
                        assert(out@[i] == before[i] && out@[j] == before[j]);
                    }
                }
            }
        }
        proof {
            assert forall|wanted: Seq<char>|
                lists(out@, wanted) <==> exists|i: int|
                    0 <= i < k + 1 && (#[trigger] names@[order@[i] as int])@ == wanted by {
                if lists(out@, wanted) {
                    let at = choose|at: int| 0 <= at < out@.len() && (#[trigger] out@[at])@ == wanted;
                    if at < before.len() {
                        assert(out@[at] == before[at]);
                        assert(lists(before, wanted));
                        let i = choose|i: int|
                            0 <= i < k && (#[trigger] names@[order@[i] as int])@ == wanted;
                        assert(0 <= i < k + 1 && names@[order@[i] as int]@ == wanted);
                    } else {
                        assert(names@[order@[k as int] as int]@ == wanted);
                    }
                }
                if exists|i: int|
                    0 <= i < k + 1 && (#[trigger] names@[order@[i] as int])@ == wanted {
                    let i = choose|i: int|
                        0 <= i < k + 1 && (#[trigger] names@[order@[i] as int])@ == wanted;
                    if i < k {
                        assert(lists(before, wanted));
                        let at = choose|at: int|
                            0 <= at < before.len() && (#[trigger] before[at])@ == wanted;
                        assert(out@[at] == before[at]);
                    } else {
                        assert(out@[out@.len() - 1]@ == wanted);
                    }
                }
            }
        }
        k += 1;
    }
    proof {
        assert forall|name: Seq<char>| lists(out@, name) <==> lists(names@, name) by {
            if lists(out@, name) {
                let i = choose|i: int|
                    0 <= i < k && (#[trigger] names@[order@[i] as int])@ == name;
                assert(names@[order@[i] as int]@ == name);
            }
            if lists(names@, name) {
                let at = choose|at: int| 0 <= at < names@.len() && (#[trigger] names@[at])@ == name;
                lemma_order_covers(keys, order@, at);
                let i = choose|i: int| 0 <= i < order@.len() && order@[i] == at;
                assert(names@[order@[i] as int]@ == name);
            }
        }
    }
    out
}

/// A list of `n` different positions below `n` holds each position below
/// `n`.
proof fn lemma_order_covers(keys: Seq<Seq<int>>, order: Seq<usize>, at: int)
    requires
        is_stable_order(keys, order),
        0 <= at < keys.len(),
    ensures
        exists|i: int| 0 <= i < order.len() && order[i] == at,
{
    let positions = Set::new(|p: int| 0 <= p < keys.len());
    let listed = Set::new(|p: int| exists|i: int| 0 <= i < order.len() && order[i] == p);
    lemma_listed_count(order, order.len() as int);
    vstd::set_lib::lemma_int_range(0, keys.len() as int);
    assert(positions =~= vstd::set_lib::set_int_range(0, keys.len() as int));
    let upto = Set::new(
        |p: int| exists|i: int| 0 <= i < order.len() as int && order[i] == p,
    );
    assert(upto =~= listed);
    assert(listed.subset_of(positions)) by {
        assert forall|p: int| listed.contains(p) implies positions.contains(p) by {
            let i = choose|i: int| 0 <= i < order.len() && order[i] == p;
            assert(order[i] < keys.len());
        }
    }
    vstd::set_lib::lemma_subset_equality(listed, positions);
    assert(positions.contains(at));
    assert(listed.contains(at));
}

/// The first `n` places of a list of different positions hold `n`
/// positions.
proof fn lemma_listed_count(order: Seq<usize>, n: int)
    requires
        0 <= n <= order.len(),
        forall|i: int, j: int|
            0 <= i < j < order.len() ==> (#[trigger] order[i]) != (#[trigger] order[j]),
    ensures
        Set::new(|p: int| exists|i: int| 0 <= i < n && order[i] == p).finite(),
        Set::new(|p: int| exists|i: int| 0 <= i < n && order[i] == p).len() == n,
    decreases n,
{
    let now = Set::new(|p: int| exists|i: int| 0 <= i < n && order[i] == p);
    if n == 0 {
        assert(now =~= Set::<int>::empty());
    } else {
        lemma_listed_count(order, n - 1);
        let before = Set::new(|p: int| exists|i: int| 0 <= i < n - 1 && order[i] == p);
        let added = order[n - 1] as int;
        assert(!before.contains(added)) by {
            if before.contains(added) {
                let i = choose|i: int| 0 <= i < n - 1 && order[i] == added;
                assert(order[i] != order[n - 1]);
            }
        }
        assert(now =~= before.insert(added)) by {
            assert forall|p: int| now.contains(p) <==> before.insert(added).contains(p) by {
                if now.contains(p) {
                    let i = choose|i: int| 0 <= i < n && order[i] == p;
                    if i < n - 1 {
                        assert(before.contains(p));
                    }
                }
                if before.contains(p) {
                    let i = choose|i: int| 0 <= i < n - 1 && order[i] == p;
                    assert(0 <= i < n && order[i] == p);
                }
                if p == added {
                    assert(0 <= n - 1 < n && order[n - 1] == p);
                }
            }
        }
    }
}

/// The posts in `posts`, newest first; posts of the same date stay in
/// their order.
pub fn newest_first<'a>(posts: &Vec<&'a PostMetadata>) -> (sorted: Vec<&'a PostMetadata>)
    ensures
        exists|order: Seq<usize>|
            #[trigger] is_stable_order(keys_of(posts@), order) && sorted@ == reordered(
                posts@,
                order,
            ),
{
    let order = sorted_order::<&'a PostMetadata, int>(
        posts,
        Ghost(Seq::new(posts@.len(), |i: int| i)),
    );
    let mut sorted: Vec<&'a PostMetadata> = Vec::new();
    let mut k: usize = 0;
    while k < order.len()
        invariant
            k <= order@.len(),
            is_stable_order(keys_of(posts@), order@),
            sorted@.len() == k,
            forall|i: int| 0 <= i < k ==> sorted@[i] == posts@[order@[i] as int],
        decreases order.len() - k,
    {
        sorted.push(posts[order[k]]);
        k += 1;
    }
    assert(sorted@ =~= reordered(posts@, order@));
    sorted
}

/// The posts in `posts` that are no drafts, in their order.
pub fn published_posts<'a>(posts: &Vec<&'a PostMetadata>) -> (shown: Vec<&'a PostMetadata>)
    ensures
        posts_of(shown@) == kept(posts_of(posts@), published()),
{
    let mut shown: Vec<&'a PostMetadata> = Vec::new();
    let ghost all = posts_of(posts@);
    let mut i: usize = 0;
    assert(all.subrange(0, 0) == Seq::<PostMetadata>::empty());
    assert(posts_of(shown@) == Seq::<PostMetadata>::empty());
    while i < posts.len()
        invariant
            i <= posts@.len(),
            all == posts_of(posts@),
            posts_of(shown@) == kept(all.subrange(0, i as int), published()),
        decreases posts.len() - i,
    {
        proof {
            lemma_kept_step(all, published(), i as int);
        }
        if !posts[i].frontmatter.draft {
            let ghost before = posts_of(shown@);
            shown.push(posts[i]);
            assert(posts_of(shown@) == before.push(*posts@[i as int]));
        }
        i += 1;
    }
    assert(all.subrange(0, all.len() as int) == all);
    shown
}

impl MetadataCache {
    /// The tags with their counts, the most used first; tags used equally
    /// often in ascending order.
    pub fn tags_by_count(&self) -> (counts: Vec<TagCount>)
        ensures
            exists|listed: Seq<TagCount>, order: Seq<usize>|
                {
                    &&& #[trigger] is_stable_order(keys_of(listed), order)
                    &&& counts@ == reordered(listed, order)
                    &&& listed.len() == counts@.len()
                    &&& strictly_ascending(listed.map_values(|t: TagCount| t.tag))
                    &&& forall|i: int|
                        0 <= i < listed.len() ==> tag_occurs(self.posts@, (#[trigger] listed[i]).tag@)
                            && listed[i].count == kept(self.posts@, tagged(listed[i].tag@)).len()
                    &&& forall|tag: Seq<char>|
                        tag_occurs(self.posts@, tag) ==> lists(
                            listed.map_values(|t: TagCount| t.tag),
                            tag,
                        )
                },
    {
        let names = self.get_tags();
        let mut listed: Vec<TagCount> = Vec::new();
        let mut i: usize = 0;
        while i < names.len()
            invariant
                i <= names@.len(),
                listed@.len() == i,
                forall|j: int|
                    0 <= j < i ==> (#[trigger] listed@[j]).tag == names@[j] && listed@[j].count
                        == kept(self.posts@, tagged(names@[j]@)).len(),
            decreases names.len() - i,
        {
            let count = self.tag_count(names[i].as_str());
            listed.push(TagCount { tag: names[i].clone(), count });
            i += 1;
        }
        let order = sorted_order::<TagCount, int>(
            &listed,
            Ghost(Seq::new(listed@.len(), |k: int| k)),
        );
        let mut counts: Vec<TagCount> = Vec::new();
        let mut k: usize = 0;
        while k < order.len()
            invariant
                k <= order@.len(),
                is_stable_order(keys_of(listed@), order@),
                counts@.len() == k,
                forall|j: int| 0 <= j < k ==> counts@[j] == listed@[order@[j] as int],
            decreases order.len() - k,
        {
            let item = &listed[order[k]];
            counts.push(TagCount { tag: item.tag.clone(), count: item.count });
            k += 1;
        }
        proof {
            assert(counts@ =~= reordered(listed@, order@));
            assert(listed@.map_values(|t: TagCount| t.tag) =~= names@);
            assert forall|j: int| 0 <= j < listed@.len() implies tag_occurs(
                self.posts@,
                (#[trigger] listed@[j]).tag@,
            ) by {
                assert(lists(names@, names@[j]@));
            }
        }
        counts
    }

    /// An index without posts or categories.
    pub fn new() -> (cache: Self)
        ensures
            cache.posts@.len() == 0,
            cache.category_info@.len() == 0,
            cache.version@ == "0.1.0"@,
    {
        MetadataCache {
            version: "0.1.0".to_owned(),
            posts: Vec::new(),
            category_info: Vec::new(),
        }
    }

    /// Sets the categories of the site.
    pub fn set_category_info(&mut self, categories: Vec<Category>)
        ensures
            final(self).category_info == categories,
            final(self).posts == old(self).posts,
            final(self).version == old(self).version,
    {
        self.category_info = categories;
    }

    /// The categories of the site.
    pub fn get_category_info(&self) -> (categories: &Vec<Category>)
        ensures
            *categories == self.category_info,
    {
        &self.category_info
    }

    /// Enters a post. A post with the same slug is replaced; the new entry
    /// stands last.
    pub fn upsert_post(&mut self, slug: String, category: String, frontmatter: Frontmatter)
        ensures
            final(self).posts@ == kept(old(self).posts@, other_slug(slug@)).push(
                PostMetadata { slug, category, frontmatter },
            ),
            final(self).category_info == old(self).category_info,
            final(self).version == old(self).version,
    {
        let mut earlier: Vec<PostMetadata> = Vec::new();
        core::mem::swap(&mut earlier, &mut self.posts);
        let ghost before = earlier@;
        assert(before.subrange(0, 0) == Seq::<PostMetadata>::empty());
        for post in iter: earlier
            invariant
                iter.seq() == before,
                self.posts@ == kept(before.subrange(0, iter.index() as int), other_slug(slug@)),
                self.category_info == old(self).category_info,
                self.version == old(self).version,
        {
            proof {
                lemma_kept_step(before, other_slug(slug@), iter.index() as int);
            }
            if !str_eq(post.slug.as_str(), slug.as_str()) {
                self.posts.push(post);
            }
        }
        assert(before.subrange(0, before.len() as int) == before);
        self.posts.push(PostMetadata { slug, category, frontmatter });
    }

    /// The posts of a category, in the order entered.
    pub fn get_posts_by_category(&self, category: &str) -> (found: Vec<&PostMetadata>)
        ensures
            posts_of(found@) == kept(self.posts@, in_category(category@)),
    {
        let mut found: Vec<&PostMetadata> = Vec::new();
        let mut i: usize = 0;
        assert(self.posts@.subrange(0, 0) == Seq::<PostMetadata>::empty());
        assert(posts_of(found@) == Seq::<PostMetadata>::empty());
        while i < self.posts.len()
            invariant
                i <= self.posts@.len(),
                posts_of(found@) == kept(self.posts@.subrange(0, i as int), in_category(category@)),
            decreases self.posts.len() - i,
        {
            proof {
                lemma_kept_step(self.posts@, in_category(category@), i as int);
            }
            if str_eq(self.posts[i].category.as_str(), category) {
                let ghost before = posts_of(found@);
                found.push(&self.posts[i]);
                assert(posts_of(found@) == before.push(self.posts@[i as int]));
            }
            i += 1;
        }
        assert(self.posts@.subrange(0, self.posts@.len() as int) == self.posts@);
        found
    }

    /// The posts that carry a tag, in the order entered.
    pub fn get_posts_by_tag(&self, tag: &str) -> (found: Vec<&PostMetadata>)
        ensures
            posts_of(found@) == kept(self.posts@, tagged(tag@)),
    {
        let mut found: Vec<&PostMetadata> = Vec::new();
        let mut i: usize = 0;
        assert(self.posts@.subrange(0, 0) == Seq::<PostMetadata>::empty());
        assert(posts_of(found@) == Seq::<PostMetadata>::empty());
        while i < self.posts.len()
            invariant
                i <= self.posts@.len(),
                posts_of(found@) == kept(self.posts@.subrange(0, i as int), tagged(tag@)),
            decreases self.posts.len() - i,
        {
            proof {
                lemma_kept_step(self.posts@, tagged(tag@), i as int);
            }
            if has_tag(&self.posts[i].frontmatter.tags, tag) {
                let ghost before = posts_of(found@);
                found.push(&self.posts[i]);
                assert(posts_of(found@) == before.push(self.posts@[i as int]));
            }
            i += 1;
        }
        assert(self.posts@.subrange(0, self.posts@.len() as int) == self.posts@);
        found
    }

    /// The newest posts, newest first, at most `limit` of them. Posts of
    /// the same date stay in the order entered.
    pub fn get_recent_posts(&self, limit: usize) -> (recent: Vec<&PostMetadata>)
        ensures
            recent@.len() == if limit < self.posts@.len() {
                limit as int
            } else {
                self.posts@.len() as int
            },
            exists|order: Seq<usize>|
                is_stable_order(keys_of(self.posts@), order) && #[trigger] reordered(
                    self.posts@,
                    order,
                ).subrange(0, recent@.len() as int) == posts_of(recent@),
    {
        let order = sorted_order::<PostMetadata, int>(
            &self.posts,
            Ghost(Seq::new(self.posts@.len(), |i: int| i)),
        );
        let count = if limit < order.len() { limit } else { order.len() };
        let mut recent: Vec<&PostMetadata> = Vec::new();
        let mut k: usize = 0;
        while k < count
            invariant
                k <= count <= order@.len(),
                is_stable_order(keys_of(self.posts@), order@),
                recent@.len() == k,
                forall|i: int| 0 <= i < k ==> *(#[trigger] recent@[i]) == self.posts@[order@[i] as int],
            decreases count - k,
        {
            recent.push(&self.posts[order[k]]);
            k += 1;
        }
        assert(reordered(self.posts@, order@).subrange(0, recent@.len() as int) =~= posts_of(
            recent@,
        ));
        recent
    }

    /// The categories that have posts, in ascending order.
    pub fn get_categories(&self) -> (names: Vec<String>)
        ensures
            strictly_ascending(names@),
            forall|name: Seq<char>| lists(names@, name) <==> category_occurs(self.posts@, name),
    {
        let mut all: Vec<String> = Vec::new();
        let mut i: usize = 0;
        while i < self.posts.len()
            invariant
                i <= self.posts@.len(),
                all@.len() == i,
                forall|j: int| 0 <= j < i ==> (#[trigger] all@[j])@ == self.posts@[j].category@,
            decreases self.posts.len() - i,
        {
            all.push(self.posts[i].category.clone());
            i += 1;
        }
        let names = sorted_distinct(&all);
        proof {
            assert forall|name: Seq<char>| lists(names@, name) <==> category_occurs(
                self.posts@,
                name,
            ) by {
                if lists(all@, name) {
                    let j = choose|j: int| 0 <= j < all@.len() && (#[trigger] all@[j])@ == name;
                    assert(self.posts@[j].category@ == name);
                }
                if category_occurs(self.posts@, name) {
                    let j = choose|j: int|
                        0 <= j < self.posts@.len() && (#[trigger] self.posts@[j]).category@ == name;
                    assert(all@[j]@ == name);
                }
            }
        }
        names
    }

    /// The tags that posts carry, in ascending order.
    pub fn get_tags(&self) -> (names: Vec<String>)
        ensures
            strictly_ascending(names@),
            forall|tag: Seq<char>| lists(names@, tag) <==> tag_occurs(self.posts@, tag),
    {
        let mut all: Vec<String> = Vec::new();
        let mut i: usize = 0;
        while i < self.posts.len()
            invariant
                i <= self.posts@.len(),
                forall|tag: Seq<char>|
                    lists(all@, tag) <==> tag_occurs(self.posts@.subrange(0, i as int), tag),
            decreases self.posts.len() - i,
        {
            let tags = &self.posts[i].frontmatter.tags;
            let ghost start = all@;
            let mut t: usize = 0;
            while t < tags.len()
                invariant
                    t <= tags@.len(),
                    all@.len() == start.len() + t,
                    forall|j: int| 0 <= j < start.len() ==> all@[j] == start[j],
                    forall|j: int| 0 <= j < t ==> (#[trigger] all@[start.len() + j])@ == tags@[j]@,
                decreases tags.len() - t,
            {
                all.push(tags[t].clone());
                t += 1;
            }
            proof {
                let upto = self.posts@.subrange(0, i + 1);
                let earlier = self.posts@.subrange(0, i as int);
                assert forall|tag: Seq<char>| lists(all@, tag) <==> tag_occurs(upto, tag) by {
                    if lists(all@, tag) {
                        let j = choose|j: int| 0 <= j < all@.len() && (#[trigger] all@[j])@ == tag;
                        if j < start.len() {
                            assert(start[j]@ == tag);
                            assert(lists(start, tag));
                            let p = choose|p: int|
                                0 <= p < earlier.len() && holds_tag(
                                    (#[trigger] earlier[p]).frontmatter.tags@,
                                    tag,
                                );
                            assert(upto[p] == earlier[p]);
                        } else {
                            assert(all@[start.len() + (j - start.len())]@ == tags@[j - start.len()]@);
                            assert(tags@[j - start.len()]@ == tag);
                            assert(upto[i as int] == self.posts@[i as int]);
                            assert(holds_tag(upto[i as int].frontmatter.tags@, tag));
                        }
                    }
                    if tag_occurs(upto, tag) {
                        let p = choose|p: int|
                            0 <= p < upto.len() && holds_tag(
                                (#[trigger] upto[p]).frontmatter.tags@,
                                tag,
                            );
                        if p < i {
                            assert(earlier[p] == upto[p]);
                            assert(tag_occurs(earlier, tag));
                            assert(lists(start, tag));
                            let j = choose|j: int|
                                0 <= j < start.len() && (#[trigger] start[j])@ == tag;
                            assert(all@[j]@ == tag);
                        } else {
                            let q = choose|q: int| 0 <= q < tags@.len() && (#[trigger] tags@[q])@ == tag;
                            assert(all@[start.len() + q]@ == tag);
                        }
                    }
                }
            }
            i += 1;
        }
        assert(self.posts@.subrange(0, self.posts@.len() as int) == self.posts@);
        sorted_distinct(&all)
    }

    /// Number of posts in a category.
    pub fn category_count(&self, category: &str) -> (count: usize)
        ensures
            count == kept(self.posts@, in_category(category@)).len(),
    {
        let found = self.get_posts_by_category(category);
        assert(posts_of(found@).len() == found@.len());
        found.len()
    }

    /// Number of posts that carry a tag.
    pub fn tag_count(&self, tag: &str) -> (count: usize)
        ensures
            count == kept(self.posts@, tagged(tag@)).len(),
    {
        let found = self.get_posts_by_tag(tag);
        assert(posts_of(found@).len() == found@.len());
        found.len()
    }
}

impl Default for MetadataCache {
    fn default() -> (cache: Self)
        ensures
            cache.posts@.len() == 0,
            cache.category_info@.len() == 0,
            cache.version@ == "0.1.0"@,
    {
        Self::new()
    }
}

} // verus!
