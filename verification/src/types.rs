//! The content model: posts, their frontmatter, and categories.

use vstd::prelude::*;

verus! {

/// A point in time: seconds since the Unix epoch and the nanoseconds within
/// that second. Dates are ordered by seconds, then by nanoseconds.
#[derive(Debug, Clone, Copy, PartialEq, Eq, Structural)]
pub struct PostDate {
    pub seconds: i64,
    pub nanos: u32,
}

/// The metadata block at the head of a content file.
#[derive(Debug, Clone, PartialEq, Eq)]
pub struct Frontmatter {
    pub title: String,
    pub date: PostDate,
    pub category: String,
    pub tags: Vec<String>,
    pub featured_image: Option<String>,
    pub description: Option<String>,
    pub draft: bool,
}

/// A post: where it lives, its metadata, its Markdown body and, once
/// rendered, its HTML.
#[derive(Debug, Clone, PartialEq, Eq)]
pub struct Post {
    pub slug: String,
    pub category: String,
    pub frontmatter: Frontmatter,
    pub content: String,
    pub rendered_html: Option<String>,
}

/// A category of posts: a directory of the content tree.
#[derive(Debug, Clone, PartialEq, Eq)]
pub struct Category {
    /// URL slug, the directory's name.
    pub slug: String,
    /// Display name.
    pub name: String,
    pub description: String,
    /// Sort order; lower comes first.
    pub index: i32,
    /// Hidden from navigation.
    pub hidden: bool,
    pub icon: Option<String>,
    pub color: Option<String>,
    pub cover_image: Option<String>,
}

/// The sort order of a category that does not state one.
pub fn default_category_index() -> (index: i32)
    ensures
        index == 999,
{
    999
}

} // verus!
