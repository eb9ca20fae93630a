//! The search index: one entry per published post, newest first.

use vstd::prelude::*;
use crate::generator::path_segment;
use crate::metadata::PostMetadata;
use crate::order::{is_stable_order, keys_of, lex_le, lex_le_from, sorted_order, Keyed};
use crate::slug::encode_for_url;
use crate::text::{chars_of, push_str, string_of};
use crate::types::PostDate;

verus! {

/// The search index as it is written for the site's search.
#[derive(Debug, Clone, PartialEq, Eq)]
pub struct SearchIndex {
    pub version: String,
    pub posts: Vec<SearchEntry>,
}

/// What the search knows of one post.
#[derive(Debug, Clone, PartialEq, Eq)]
pub struct SearchEntry {
    pub title: String,
    pub description: Option<String>,
    pub url: String,
    pub category: String,
    pub tags: Vec<String>,
    pub date: String,
}

/// The calendar day of a point in time, in UTC, as `YYYY-MM-DD`; `None` for
/// a time that the calendar of `chrono` does not reach.
pub uninterp spec fn calendar_day(seconds: i64, nanos: u32) -> Option<Seq<char>>;

/// `chrono::DateTime::from_timestamp` followed by `DateTime::format` with
/// the pattern `%Y-%m-%d`.
#[verifier::external_body]
fn format_day(date: &PostDate) -> (day: Option<String>)
    ensures
        match day {
            Some(text) => calendar_day(date.seconds, date.nanos) == Some(text@),
            None => calendar_day(date.seconds, date.nanos) is None,
        },
{
    chrono::DateTime::from_timestamp(date.seconds, date.nanos)
        .map(|time| time.format("%Y-%m-%d").to_string())
}

/// The day of a post as the index shows it; empty for a time that has no
/// calendar day.
pub open spec fn day_text(date: PostDate) -> Seq<char> {
    match calendar_day(date.seconds, date.nanos) {
        Some(text) => text,
        None => Seq::empty(),
    }
}

/// The address of a post within the site: `/<category>/<slug>/`.
pub open spec fn entry_url(encode: bool, category: Seq<char>, slug: Seq<char>) -> Seq<char> {
    "/"@ + path_segment(encode, category) + "/"@ + path_segment(encode, slug) + "/"@
}

/// The key that puts later texts first.
pub open spec fn descending_key(text: Seq<char>) -> Seq<int> {
    text.map_values(|c: char| -(c as int)).push(1)
}

/// A post together with the day that the index shows for it.
pub struct DatedPost<'a> {
    pub post: &'a PostMetadata,
    pub day: String,
}

impl<'a> Keyed for DatedPost<'a> {
    open spec fn key(&self) -> Seq<int> {
        descending_key(self.day@)
    }

    fn key_le(&self, other: &Self) -> (le: bool) {
        let a = chars_of(self.day.as_str());
        let b = chars_of(other.day.as_str());
        let ghost ka = descending_key(self.day@);
        let ghost kb = descending_key(other.day@);
        let mut i: usize = 0;
        while i < a.len() && i < b.len()
            invariant
                i <= a@.len(),
                i <= b@.len(),
                a@ == self.day@,
                b@ == other.day@,
                ka == descending_key(self.day@),
                kb == descending_key(other.day@),
                lex_le(ka, kb) == lex_le_from(ka, kb, i as int),
            decreases a.len() - i,
        {
            assert(ka[i as int] == -(a@[i as int] as int));
            assert(kb[i as int] == -(b@[i as int] as int));
            if a[i] != b[i] {
                return a[i] > b[i];
            }
            i += 1;
        }
        assert(ka.len() == a@.len() + 1 && kb.len() == b@.len() + 1);
        if i < a.len() {
            // `other` ends here: its key holds the end mark, which is
            // larger than the mark of any character.
            assert(kb[i as int] == 1);
            let ghost c = a@[i as int];
            assert(ka[i as int] == -(c as int));
            proof {
                crate::order::lemma_char_code(c);
            }
            assert(lex_le_from(ka, kb, i as int) == (ka[i as int] < kb[i as int]));
            true
        } else if i < b.len() {
            assert(ka[i as int] == 1);
            let ghost c = b@[i as int];
            assert(kb[i as int] == -(c as int));
            proof {
                crate::order::lemma_char_code(c);
            }
            assert(lex_le_from(ka, kb, i as int) == (ka[i as int] < kb[i as int]));
            false
        } else {
            assert(ka[i as int] == 1 && kb[i as int] == 1);
            assert(lex_le_from(ka, kb, i + 1));
            true
        }
    }
}

/// The entry of a post.
pub open spec fn is_entry_of(entry: SearchEntry, post: PostMetadata, encode: bool) -> bool {
    &&& entry.title@ == post.frontmatter.title@
    &&& entry.description == post.frontmatter.description
    &&& entry.url@ == entry_url(encode, post.category@, post.slug@)
    &&& entry.category@ == post.category@
    &&& entry.tags@ == post.frontmatter.tags@
    &&& entry.date@ == day_text(post.frontmatter.date)
}

/// The posts that are no drafts.
pub open spec fn published() -> spec_fn(PostMetadata) -> bool {
    |post: PostMetadata| !post.frontmatter.draft
}

/// The keys by which the entries of posts are ordered.
pub open spec fn day_keys(posts: Seq<PostMetadata>) -> Seq<Seq<int>> {
    posts.map_values(|p: PostMetadata| descending_key(day_text(p.frontmatter.date)))
}

/// Makes the search index of a site.
pub struct SearchIndexGenerator {
    encode_filenames: bool,
}

impl SearchIndexGenerator {
    /// Whether slugs and categories are encoded in addresses.
    pub closed spec fn encodes(&self) -> bool {
        self.encode_filenames
    }

    /// A generator for a site that does or does not encode names.
    pub fn new(encode_filenames: bool) -> (generator: Self)
        ensures
            generator.encodes() == encode_filenames,
    {
        SearchIndexGenerator { encode_filenames }
    }

    /// The entry for one post.
    pub fn entry_for(&self, post: &PostMetadata) -> (entry: SearchEntry)
        ensures
            is_entry_of(entry, *post, self.encodes()),
    {
        let day = match format_day(&post.frontmatter.date) {
            Some(text) => text,
            None => String::new(),
        };
        self.dated_entry(post, day)
    }

    fn dated_entry(&self, post: &PostMetadata, day: String) -> (entry: SearchEntry)
        ensures
            entry.title@ == post.frontmatter.title@,
            entry.description == post.frontmatter.description,
            entry.url@ == entry_url(self.encodes(), post.category@, post.slug@),
            entry.category@ == post.category@,
            entry.tags@ == post.frontmatter.tags@,
            entry.date == day,
    {
        let mut url: Vec<char> = Vec::new();
        push_str(&mut url, "/");
        if self.encode_filenames {
            push_str(&mut url, encode_for_url(post.category.as_str()).as_str());
        } else {
            push_str(&mut url, post.category.as_str());
        }
        push_str(&mut url, "/");
        if self.encode_filenames {
            push_str(&mut url, encode_for_url(post.slug.as_str()).as_str());
        } else {
            push_str(&mut url, post.slug.as_str());
        }
        push_str(&mut url, "/");
        let description = match &post.frontmatter.description {
            Some(text) => Some(text.clone()),
            None => None,
        };
        SearchEntry {
            title: post.frontmatter.title.clone(),
            description,
            url: string_of(&url),
            category: post.category.clone(),
            tags: crate::text::clone_strings(&post.frontmatter.tags),
            date: day,
        }
    }

    /// The search index of the posts: an entry for each post that is no
    /// draft, the latest day first; entries of one day stay in the order of
    /// their posts.
    pub fn build_index(&self, posts: &Vec<PostMetadata>) -> (index: SearchIndex)
        ensures
            index.version@ == "1.0"@,
            exists|shown: Seq<PostMetadata>, order: Seq<usize>|
                {
                    &&& shown == crate::select::kept(posts@, published())
                    &&& #[trigger] is_stable_order(day_keys(shown), order)
                    &&& index.posts@.len() == shown.len()
                    &&& forall|i: int|
                        0 <= i < index.posts@.len() ==> is_entry_of(
                            #[trigger] index.posts@[i],
                            shown[order[i] as int],
                            self.encodes(),
                        )
                },
    {
        let mut dated: Vec<DatedPost> = Vec::new();
        let ghost mut shown: Seq<PostMetadata> = Seq::empty();
        let mut i: usize = 0;
        assert(posts@.subrange(0, 0) == Seq::<PostMetadata>::empty());
        while i < posts.len()
            invariant
                i <= posts@.len(),
                shown == crate::select::kept(posts@.subrange(0, i as int), published()),
                dated@.len() == shown.len(),
                forall|k: int|
                    0 <= k < dated@.len() ==> *(#[trigger] dated@[k]).post == shown[k]
                        && dated@[k].day@ == day_text(shown[k].frontmatter.date),
            decreases posts.len() - i,
        {
            proof {
                crate::select::lemma_kept_step(posts@, published(), i as int);
            }
            if !posts[i].frontmatter.draft {
                let day = match format_day(&posts[i].frontmatter.date) {
                    Some(text) => text,
                    None => String::new(),
                };
                dated.push(DatedPost { post: &posts[i], day });
                proof {
                    shown = shown.push(posts@[i as int]);
                }
            }
            i += 1;
        }
        assert(posts@.subrange(0, posts@.len() as int) == posts@);
        let order = sorted_order::<DatedPost, int>(
            &dated,
            Ghost(Seq::new(dated@.len(), |k: int| k)),
        );
        let ghost keys = day_keys(shown);
        assert(keys_of(dated@) =~= keys);
        let mut entries: Vec<SearchEntry> = Vec::new();
        let mut k: usize = 0;
        while k < order.len()
            invariant
                k <= order@.len(),
                order@.len() == dated@.len(),
                dated@.len() == shown.len(),
                is_stable_order(keys, order@),
                keys.len() == shown.len(),
                forall|j: int|
                    0 <= j < dated@.len() ==> *(#[trigger] dated@[j]).post == shown[j]
                        && dated@[j].day@ == day_text(shown[j].frontmatter.date),
                entries@.len() == k,
                forall|j: int|
                    0 <= j < k ==> is_entry_of(
                        #[trigger] entries@[j],
                        shown[order@[j] as int],
                        self.encodes(),
                    ),
            decreases order.len() - k,
        {
            let at = order[k];
            let item = &dated[at];
            let entry = self.dated_entry(item.post, item.day.clone());
            entries.push(entry);
            k += 1;
        }
        SearchIndex { version: "1.0".to_owned(), posts: entries }
    }
}

} // verus!
