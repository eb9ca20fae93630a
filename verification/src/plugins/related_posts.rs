//! Related posts: the newest other posts of a post's category.

use vstd::prelude::*;
use crate::metadata::{posts_of, PostMetadata};
use crate::order::{is_stable_order, keys_of, reordered, sorted_order};
use crate::select::{kept, lemma_kept_step};
use crate::text::str_eq;

verus! {

/// The posts of the category `category` other than the post `slug`.
pub open spec fn related_to(slug: Seq<char>, category: Seq<char>) -> spec_fn(PostMetadata) -> bool {
    |post: PostMetadata| post.category@ == category && post.slug@ != slug
}

/// The first `limit` items of `s`, or all of them where there are fewer.
pub open spec fn first_of<A>(s: Seq<A>, limit: int) -> Seq<A> {
    if limit < s.len() {
        s.subrange(0, limit)
    } else {
        s
    }
}

/// The plugin that offers a post's related posts to its template.
#[derive(Debug)]
pub struct RelatedPostsPlugin {
    limit: usize,
}

impl RelatedPostsPlugin {
    /// How many related posts are offered at most.
    pub closed spec fn limit(&self) -> usize {
        self.limit
    }

    /// The plugin with its usual limit of three posts.
    pub fn new() -> (plugin: Self)
        ensures
            plugin.limit() == 3,
    {
        RelatedPostsPlugin { limit: 3 }
    }

    /// The plugin's name.
    pub fn name(&self) -> (name: &'static str)
        ensures
            name@ == "related_posts"@,
    {
        "related_posts"
    }

    /// The posts related to the post `slug` of the category `category`: the
    /// other posts of that category, newest first, up to the limit. Posts of
    /// the same date stay in the order in which they stand.
    pub fn related_posts<'a>(&self, slug: &str, category: &str, posts: &'a Vec<PostMetadata>) -> (related:
        Vec<&'a PostMetadata>)
        ensures
            exists|order: Seq<usize>|
                #[trigger] is_stable_order(keys_of(posts@), order) && posts_of(related@)
                    == first_of(
                    kept(reordered(posts@, order), related_to(slug@, category@)),
                    self.limit() as int,
                ),
    {
        let order = sorted_order::<PostMetadata, int>(
            posts,
            Ghost(Seq::new(posts@.len(), |i: int| i)),
        );
        let ghost sorted = reordered(posts@, order@);
        let ghost wanted = related_to(slug@, category@);
        let mut related: Vec<&'a PostMetadata> = Vec::new();
        let mut k: usize = 0;
        assert(sorted.subrange(0, 0) == Seq::<PostMetadata>::empty());
        assert(posts_of(related@) == Seq::<PostMetadata>::empty());
        while k < order.len()
            invariant
                k <= order@.len(),
                is_stable_order(keys_of(posts@), order@),
                sorted == reordered(posts@, order@),
                wanted == related_to(slug@, category@),
                posts_of(related@) == first_of(
                    kept(sorted.subrange(0, k as int), wanted),
                    self.limit as int,
                ),
            decreases order.len() - k,
        {
            let post = &posts[order[k]];
            proof {
                lemma_kept_step(sorted, wanted, k as int);
                assert(sorted[k as int] == *post);
            }
            if str_eq(post.category.as_str(), category) && !str_eq(post.slug.as_str(), slug) {
                if related.len() < self.limit {
                    let ghost before = posts_of(related@);
                    related.push(post);
                    assert(posts_of(related@) == before.push(*post));
                }
            }
            k += 1;
        }
        assert(sorted.subrange(0, order@.len() as int) == sorted);
        related
    }
}

impl Default for RelatedPostsPlugin {
    fn default() -> (plugin: Self)
        ensures
            plugin.limit() == 3,
    {
        Self::new()
    }
}

} // verus!
