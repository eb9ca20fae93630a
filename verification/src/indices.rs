//! Listings: how the posts of a category or tag are spread over pages.

use vstd::prelude::*;
use crate::generator::{join_path, joined};

use crate::text::{chars_of, decimal, decimal_of, push_all, push_str, string_of};

verus! {

/// A link to one page of a listing.
#[derive(Debug, Clone, PartialEq, Eq)]
pub struct PageLink {
    pub number: usize,
    pub url: String,
    pub is_current: bool,
}

/// What a template needs to render the navigation of a listing.
#[derive(Debug, Clone, PartialEq, Eq)]
pub struct PaginationContext {
    pub current_page: usize,
    pub total_pages: usize,
    pub total_posts: usize,
    pub posts_per_page: usize,
    pub has_prev: bool,
    pub has_next: bool,
    pub prev_url: Option<String>,
    pub next_url: Option<String>,
    pub first_url: String,
    pub last_url: String,
    /// The page before the window of links.
    pub jump_prev_url: Option<String>,
    /// The page after the window of links.
    pub jump_next_url: Option<String>,
    pub pages: Vec<PageLink>,
}

/// Number of pages that `total_posts` posts take: at least one.
pub open spec fn pages_for(total_posts: int, posts_per_page: int) -> int {
    if total_posts <= 0 {
        1
    } else {
        (total_posts - 1) / posts_per_page + 1
    }
}

/// The posts on page `page`, as positions from and to in the list of posts.
pub open spec fn posts_on_page(page: int, posts_per_page: int, total_posts: int) -> (int, int) {
    let start = (page - 1) * posts_per_page;
    (
        if start < total_posts { start } else { total_posts },
        if start + posts_per_page < total_posts { start + posts_per_page } else { total_posts },
    )
}

/// The URL of page `page` of a listing at `base_url`.
pub open spec fn page_url(base_url: Seq<char>, page: int) -> Seq<char> {
    if page <= 1 {
        base_url
    } else {
        base_url + "page/"@ + decimal(page as nat)
    }
}

/// The window of page links: at most `window` pages around the current one.
pub open spec fn link_window(current: int, total_pages: int, window: int) -> (int, int) {
    let half = window / 2;
    if total_pages <= window {
        (1, total_pages)
    } else if current <= half + 1 {
        (1, window)
    } else if current >= total_pages - half {
        (total_pages - window + 1, total_pages)
    } else {
        (current - half, current + half)
    }
}

/// Number of pages that `total_posts` posts take.
pub fn total_pages(total_posts: usize, posts_per_page: usize) -> (pages: usize)
    requires
        posts_per_page > 0,
    ensures
        pages == pages_for(total_posts as int, posts_per_page as int),
        pages >= 1,
{
    if total_posts == 0 {
        1
    } else {
        (total_posts - 1) / posts_per_page + 1
    }
}

/// Which posts stand on page `page`: positions from and to.
pub fn page_bounds(page: usize, posts_per_page: usize, total_posts: usize) -> (bounds: (
    usize,
    usize,
))
    requires
        page >= 1,
    ensures
        (bounds.0 as int, bounds.1 as int) == posts_on_page(
            page as int,
            posts_per_page as int,
            total_posts as int,
        ),
        bounds.0 <= bounds.1 <= total_posts,
{
    let skipped = page - 1;
    // The first post of the page, unless the page lies behind the last post.
    let start = if posts_per_page != 0 && skipped > total_posts / posts_per_page {
        assert(skipped * posts_per_page >= total_posts) by (nonlinear_arith)
            requires
                skipped > total_posts / posts_per_page,
                posts_per_page > 0,
        ;
        total_posts
    } else {
        assert(skipped * posts_per_page <= usize::MAX) by (nonlinear_arith)
            requires
                posts_per_page == 0 || skipped <= total_posts / posts_per_page,
                total_posts <= usize::MAX,
        ;
        let first = skipped * posts_per_page;
        if first < total_posts {
            first
        } else {
            total_posts
        }
    };
    let end = if posts_per_page < total_posts - start {
        start + posts_per_page
    } else {
        total_posts
    };
    proof {
        let s = (page - 1) * posts_per_page;
        assert(s == skipped * posts_per_page);
    }
    (start, end)
}

/// The URL of page `page` of a listing at `base_url`.
pub fn page_link_url(base_url: &str, page: usize) -> (url: String)
    ensures
        url@ == page_url(base_url@, page as int),
{
    if page <= 1 {
        base_url.to_owned()
    } else {
        let mut out = chars_of(base_url);
        push_str(&mut out, "page/");
        push_all(&mut out, &decimal_of(page));
        string_of(&out)
    }
}

/// The links of a window of pages.
pub open spec fn is_link(link: PageLink, number: int, current: int, base_url: Seq<char>) -> bool {
    link.number == number && link.url@ == page_url(base_url, number) && link.is_current == (number
        == current)
}

/// The navigation of page `current_page` of a listing of `total_posts`
/// posts at `base_url`.
pub fn build_pagination_context(
    current_page: usize,
    total_posts: usize,
    base_url: &str,
    posts_per_page: usize,
    window: usize,
) -> (context: PaginationContext)
    requires
        posts_per_page > 0,
    ensures
        context.current_page == current_page,
        context.total_posts == total_posts,
        context.posts_per_page == posts_per_page,
        context.total_pages == pages_for(total_posts as int, posts_per_page as int),
        context.first_url@ == base_url@,
        context.last_url@ == page_url(base_url@, context.total_pages as int),
        ({
            let (start, end) = link_window(
                current_page as int,
                context.total_pages as int,
                window as int,
            );
            &&& context.pages@.len() == if end >= start {
                end - start + 1
            } else {
                0
            }
            &&& forall|i: int|
                0 <= i < context.pages@.len() ==> is_link(
                    #[trigger] context.pages@[i],
                    start + i,
                    current_page as int,
                    base_url@,
                )
            &&& match context.jump_prev_url {
                Some(url) => start > 1 && url@ == page_url(base_url@, start - 1),
                None => start <= 1,
            }
            &&& match context.jump_next_url {
                Some(url) => end < context.total_pages && url@ == page_url(base_url@, end + 1),
                None => end >= context.total_pages,
            }
        }),
        context.prev_url == context.jump_prev_url,
        context.next_url == context.jump_next_url,
        context.has_prev == context.prev_url is Some,
        context.has_next == context.next_url is Some,
{
    let pages_total = total_pages(total_posts, posts_per_page);
    let first_url = base_url.to_owned();
    let last_url = page_link_url(base_url, pages_total);
    let half = window / 2;
    // The window as the page before its first link and its last link.
    let (before, end): (usize, usize) = if pages_total <= window {
        (0, pages_total)
    } else if current_page <= half + 1 {
        (0, window)
    } else if current_page >= pages_total - half {
        (pages_total - window, pages_total)
    } else {
        (current_page - half - 1, current_page + half)
    };
    let count: usize = if end > before { end - before } else { 0 };
    let mut pages: Vec<PageLink> = Vec::new();
    let mut i: usize = 0;
    while i < count
        invariant
            i <= count,
            count == if end > before { end - before } else { 0 },
            pages@.len() == i,
            forall|k: int|
                0 <= k < pages@.len() ==> is_link(
                    #[trigger] pages@[k],
                    before + 1 + k,
                    current_page as int,
                    base_url@,
                ),
        decreases count - i,
    {
        let number = before + 1 + i;
        pages.push(
            PageLink {
                number,
                url: page_link_url(base_url, number),
                is_current: number == current_page,
            },
        );
        i += 1;
    }
    let jump_prev_url = if before >= 1 {
        Some(page_link_url(base_url, before))
    } else {
        None
    };
    let jump_next_url = if end < pages_total {
        Some(page_link_url(base_url, end + 1))
    } else {
        None
    };
    let prev_url = clone_option(&jump_prev_url);
    let next_url = clone_option(&jump_next_url);
    let has_prev = prev_url.is_some();
    let has_next = next_url.is_some();
    PaginationContext {
        current_page,
        total_pages: pages_total,
        total_posts,
        posts_per_page,
        has_prev,
        has_next,
        prev_url,
        next_url,
        first_url,
        last_url,
        jump_prev_url,
        jump_next_url,
        pages,
    }
}

/// A copy of an optional text.
fn clone_option(text: &Option<String>) -> (copy: Option<String>)
    ensures
        copy == *text,
{
    match text {
        Some(t) => Some(t.clone()),
        None => None,
    }
}

/// Where page `page` of a listing is written: the listing's directory for
/// the first page, `page/<number>` below it for the others.
pub open spec fn listing_path(directory: Seq<char>, page: int) -> Seq<char> {
    if page <= 1 {
        joined(directory, "index.html"@)
    } else {
        joined(joined(joined(directory, "page"@), decimal(page as nat)), "index.html"@)
    }
}

/// Where page `page` of a listing is written.
pub fn listing_output_path(directory: &str, page: usize) -> (path: String)
    ensures
        path@ == listing_path(directory@, page as int),
{
    if page <= 1 {
        join_path(directory, "index.html")
    } else {
        let pages = join_path(directory, "page");
        let number = string_of(&decimal_of(page));
        let dir = join_path(pages.as_str(), number.as_str());
        join_path(dir.as_str(), "index.html")
    }
}

} // verus!
