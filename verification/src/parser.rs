//! Reading a content file: the frontmatter block, the slug and the
//! category that its path gives it.

use vstd::prelude::*;
use vstd::string::StrSliceExecFns;
use crate::slug::{encode_for_url, url_encoded};
use crate::text::{
    chars_eq, chars_of, find_sub, first_occurrence, has_prefix, lemma_skip_trailing, only,
    replace_all, replaced, skip_char_back, skip_leading, skip_trailing, split, split_on,
    starts_with, string_of, string_of_range, texts_view, trim_bounds, trimmed, white,
};
use crate::types::{Frontmatter, Post};

verus! {

/// Why a content file could not be read as a post or page.
#[derive(Debug, Clone, Copy, PartialEq, Eq, Structural)]
pub enum ParseError {
    /// The file does not hold two `---` lines around a frontmatter block.
    InvalidFrontmatter,
    /// The path does not end in a file name.
    InvalidPath,
    /// The path has no directory below `posts`.
    NoCategory,
}

impl ParseError {
    /// The error in words.
    pub open spec fn text(self) -> Seq<char> {
        match self {
            ParseError::InvalidFrontmatter => {
                "Invalid frontmatter format. Expected:\n---\nfrontmatter\n---\ncontent"@
            },
            ParseError::InvalidPath => "Invalid file path"@,
            ParseError::NoCategory => {
                "Could not extract category from path. Expected path format: content/posts/<category>/..."@
            },
        }
    }

    /// The error in words.
    pub fn message(&self) -> (text: String)
        ensures
            text@ == self.text(),
    {
        match self {
            ParseError::InvalidFrontmatter => {
                "Invalid frontmatter format. Expected:\n---\nfrontmatter\n---\ncontent".to_owned()
            },
            ParseError::InvalidPath => "Invalid file path".to_owned(),
            ParseError::NoCategory => {
                "Could not extract category from path. Expected path format: content/posts/<category>/...".to_owned()
            },
        }
    }
}

/// The metadata of a page.
#[derive(Debug, Clone, PartialEq, Eq)]
pub struct PageFrontmatter {
    pub title: String,
    pub description: Option<String>,
    pub draft: bool,
}

/// A page outside the categories.
#[derive(Debug, Clone, PartialEq, Eq)]
pub struct Page {
    pub slug: String,
    pub frontmatter: PageFrontmatter,
    pub content: String,
    pub rendered_html: Option<String>,
}

/// The line that opens and closes a frontmatter block.
pub open spec fn fence() -> Seq<char> {
    "---"@
}

/// Where the frontmatter and the body of a content file lie: the text
/// between the first two fences and the text after the second, each without
/// surrounding white space. `None` where the file has fewer than two fences.
pub open spec fn frontmatter_split(content: Seq<char>) -> Option<(Seq<char>, Seq<char>)> {
    match first_occurrence(content, fence(), 0) {
        None => None,
        Some(first) => match first_occurrence(content, fence(), first + fence().len()) {
            None => None,
            Some(second) => Some(
                (
                    trimmed(content.subrange(first + fence().len(), second)),
                    trimmed(content.subrange(second + fence().len(), content.len() as int)),
                ),
            ),
        },
    }
}

/// The characters other than `/`.
pub open spec fn not_slash() -> spec_fn(char) -> bool {
    |c: char| c != '/'
}

/// Where the file name of a path ends that is read up to `end`: the last
/// segment that is neither empty nor `.`, given by its bounds. `None` where
/// there is no such segment or it is `..`.
pub open spec fn file_name_span(path: Seq<char>, end: int) -> Option<(int, int)>
    decreases end,
{
    let stop = skip_trailing(path, only('/'), end, 0);
    let start = skip_trailing(path, not_slash(), stop, 0);
    if end < 0 || end > path.len() || stop <= 0 {
        None
    } else {
        proof {
            lemma_skip_trailing(path, only('/'), end, 0);
            lemma_skip_trailing(path, not_slash(), stop, 0);
        }
        if path.subrange(start, stop) == "."@ {
            if start < stop {
                file_name_span(path, start)
            } else {
                None
            }
        } else if path.subrange(start, stop) == ".."@ {
            None
        } else {
            Some((start, stop))
        }
    }
}

/// A file name is not empty and lies inside the path.
pub proof fn lemma_file_name_span(path: Seq<char>, end: int)
    requires
        0 <= end <= path.len(),
    ensures
        file_name_span(path, end) matches Some((start, stop)) ==> 0 <= start < stop <= end,
    decreases end,
{
    let stop = skip_trailing(path, only('/'), end, 0);
    let start = skip_trailing(path, not_slash(), stop, 0);
    lemma_skip_trailing(path, only('/'), end, 0);
    lemma_skip_trailing(path, not_slash(), stop, 0);
    if stop > 0 {
        lemma_slash_before(path, end);
        assert(not_slash()(path[stop - 1]));
        lemma_skip_trailing(path, not_slash(), stop - 1, 0);
        assert(start == skip_trailing(path, not_slash(), stop - 1, 0));
        if path.subrange(start, stop) == "."@ {
            lemma_file_name_span(path, start);
        }
    }
}

/// After the slashes at the end of a text are skipped, no slash stands
/// last.
proof fn lemma_slash_before(path: Seq<char>, end: int)
    requires
        0 <= end <= path.len(),
    ensures
        skip_trailing(path, only('/'), end, 0) > 0 ==> path[skip_trailing(
            path,
            only('/'),
            end,
            0,
        ) - 1] != '/',
    decreases end,
{
    if end > 0 && only('/')(path[end - 1]) {
        lemma_slash_before(path, end - 1);
    }
}

/// Position of the last `.` of `name` before `upto`, or -1.
pub open spec fn last_dot(name: Seq<char>, upto: int) -> int
    decreases upto,
{
    if upto <= 0 {
        -1
    } else if name[upto - 1] == '.' {
        upto - 1
    } else {
        last_dot(name, upto - 1)
    }
}

/// The stem of a file name: the name up to its last `.`, or all of it where
/// it has no `.` after its first character.
pub open spec fn stem_of(name: Seq<char>) -> Seq<char> {
    let dot = last_dot(name, name.len() as int);
    if dot <= 0 {
        name
    } else {
        name.subrange(0, dot)
    }
}

/// The slug that a path gives: the stem of its file name.
pub open spec fn slug_of_path(path: Seq<char>) -> Option<Seq<char>> {
    match file_name_span(path, path.len() as int) {
        None => None,
        Some((start, stop)) => Some(stem_of(path.subrange(start, stop))),
    }
}

/// A segment of a path that counts as a component: it is neither empty nor
/// `.`.
pub open spec fn is_component(segment: Seq<char>) -> bool {
    segment.len() > 0 && segment != "."@
}

/// First position at or after `from` that holds a component.
pub open spec fn next_component(segments: Seq<Seq<char>>, from: int) -> int
    decreases segments.len() - from,
{
    if from < 0 || from >= segments.len() {
        segments.len() as int
    } else if is_component(segments[from]) {
        from
    } else {
        next_component(segments, from + 1)
    }
}

/// The category that the segments of a path give from position `i` on: the
/// component that follows the first `posts` that a directory or file name
/// follows.
pub open spec fn category_from(segments: Seq<Seq<char>>, i: int) -> Option<Seq<char>>
    decreases segments.len() - i,
{
    if i < 0 || i >= segments.len() {
        None
    } else {
        let next = next_component(segments, i + 1);
        if segments[i] == "posts"@ && next < segments.len() && segments[next] != ".."@ {
            Some(segments[next])
        } else {
            category_from(segments, i + 1)
        }
    }
}

/// The category that a path gives.
pub open spec fn category_of_path(path: Seq<char>) -> Option<Seq<char>> {
    category_from(split_on(path, '/'), 0)
}

/// What reading a post gives, before its frontmatter is taken into account.
pub open spec fn post_parts(path: Seq<char>, content: Seq<char>) -> Result<
    (Seq<char>, Seq<char>, Seq<char>),
    ParseError,
> {
    match frontmatter_split(content) {
        None => Err(ParseError::InvalidFrontmatter),
        Some((_, body)) => match slug_of_path(path) {
            None => Err(ParseError::InvalidPath),
            Some(stem) => match category_of_path(path) {
                None => Err(ParseError::NoCategory),
                Some(category) => Ok((url_encoded(stem), category, body)),
            },
        },
    }
}

/// Whether a page starts, after white space, with a fence.
pub open spec fn starts_with_fence(content: Seq<char>) -> bool {
    has_prefix(
        content.subrange(skip_leading(content, white(), 0), content.len() as int),
        fence(),
    )
}

/// What reading a page gives: its slug, its body and, where it has no
/// frontmatter block, the title made from the slug. A page with a block
/// needs its frontmatter `given`; a page without a block ignores it.
pub open spec fn page_parts(path: Seq<char>, content: Seq<char>, given: bool) -> Result<
    (Seq<char>, Seq<char>, Option<Seq<char>>),
    ParseError,
> {
    match slug_of_path(path) {
        None => Err(ParseError::InvalidPath),
        Some(slug) => if starts_with_fence(content) {
            match frontmatter_split(content) {
                None => Err(ParseError::InvalidFrontmatter),
                Some((_, body)) => if given {
                    Ok((slug, body, None))
                } else {
                    Err(ParseError::InvalidFrontmatter)
                },
            }
        } else {
            Ok((slug, content, Some(replaced(slug, "-"@, " "@))))
        },
    }
}

/// Reads content files.
pub struct Parser;

impl Parser {
    /// Splits a content file into its frontmatter and its body.
    pub fn split_frontmatter<'a>(content: &'a str) -> (parts: Result<(&'a str, &'a str), ParseError>)
        ensures
            match parts {
                Ok((frontmatter, body)) => frontmatter_split(content@) == Some(
                    (frontmatter@, body@),
                ),
                Err(error) => frontmatter_split(content@) is None && error
                    == ParseError::InvalidFrontmatter,
            },
    {
        let s = chars_of(content);
        let mark = chars_of("---");
        let first = match find_sub(&s, &mark, 0) {
            Some(at) => at,
            None => {
                return Err(ParseError::InvalidFrontmatter);
            },
        };
        assert(first + mark@.len() <= s.len());
        let second = match find_sub(&s, &mark, first + mark.len()) {
            Some(at) => at,
            None => {
                return Err(ParseError::InvalidFrontmatter);
            },
        };
        let between = crate::text::slice_of(&s, first + mark.len(), second);
        let after = crate::text::slice_of(&s, second + mark.len(), s.len());
        let (a, b) = trim_bounds(&between);
        let (c, d) = trim_bounds(&after);
        let from = first + mark.len();
        let rest = second + mark.len();
        assert(between@.subrange(a as int, b as int) == s@.subrange(from + a, from + b));
        assert(after@.subrange(c as int, d as int) == s@.subrange(rest + c, rest + d));
        Ok((content.substring_char(from + a, from + b), content.substring_char(rest + c, rest + d)))
    }

    /// The bounds of the file name of `path`.
    pub fn file_name_bounds(path: &Vec<char>) -> (span: Option<(usize, usize)>)
        ensures
            match span {
                Some((start, stop)) => file_name_span(path@, path@.len() as int) == Some(
                    (start as int, stop as int),
                ) && start <= stop <= path@.len(),
                None => file_name_span(path@, path@.len() as int) is None,
            },
    {
        let dot = chars_of(".");
        let dots = chars_of("..");
        let mut end: usize = path.len();
        loop
            invariant
                end <= path@.len(),
                dot@ == "."@,
                dots@ == ".."@,
                file_name_span(path@, path@.len() as int) == file_name_span(path@, end as int),
            decreases end,
        {
            let stop = skip_char_back(path, '/', end, 0);
            if stop == 0 {
                return None;
            }
            let mut start: usize = stop;
            while start > 0 && path[start - 1] != '/'
                invariant
                    start <= stop <= path@.len(),
                    skip_trailing(path@, not_slash(), stop as int, 0) == skip_trailing(
                        path@,
                        not_slash(),
                        start as int,
                        0,
                    ),
                decreases start,
            {
                start -= 1;
            }
            assert(skip_trailing(path@, not_slash(), start as int, 0) == start) by {
                if start > 0 {
                    assert(!not_slash()(path@[start - 1]));
                }
            }
            assert(start < stop) by {
                assert(not_slash()(path@[stop - 1]));
            }
            let segment = crate::text::slice_of(path, start, stop);
            if chars_eq(&segment, &dot) {
                end = start;
            } else if chars_eq(&segment, &dots) {
                return None;
            } else {
                return Some((start, stop));
            }
        }
    }

    /// The slug that a path gives: the stem of its file name.
    pub fn path_to_slug(path: &str) -> (slug: Result<String, ParseError>)
        ensures
            match slug {
                Ok(stem) => slug_of_path(path@) == Some(stem@),
                Err(error) => slug_of_path(path@) is None && error == ParseError::InvalidPath,
            },
    {
        let p = chars_of(path);
        match Self::file_name_bounds(&p) {
            None => Err(ParseError::InvalidPath),
            Some((start, stop)) => {
                let name = crate::text::slice_of(&p, start, stop);
                let mut upto: usize = name.len();
                while upto > 0 && name[upto - 1] != '.'
                    invariant
                        upto <= name@.len(),
                        last_dot(name@, name@.len() as int) == last_dot(name@, upto as int),
                    decreases upto,
                {
                    upto -= 1;
                }
                if upto <= 1 {
                    Ok(string_of(&name))
                } else {
                    Ok(string_of_range(&name, 0, upto - 1))
                }
            },
        }
    }

    /// A slug as it is written in URLs and file names.
    pub fn encode_slug(slug: &str) -> (encoded: String)
        ensures
            encoded@ == url_encoded(slug@),
    {
        encode_for_url(slug)
    }

    /// The category that a path gives: the directory below `posts`.
    pub fn extract_category(path: &str) -> (category: Result<String, ParseError>)
        ensures
            match category {
                Ok(name) => category_of_path(path@) == Some(name@),
                Err(error) => category_of_path(path@) is None && error == ParseError::NoCategory,
            },
    {
        let p = chars_of(path);
        let segments = split(&p, '/');
        let posts = chars_of("posts");
        let dot = chars_of(".");
        let dots = chars_of("..");
        let ghost all = texts_view(segments@);
        let mut i: usize = 0;
        while i < segments.len()
            invariant
                i <= segments@.len(),
                all == texts_view(segments@),
                all == split_on(path@, '/'),
                posts@ == "posts"@,
                dot@ == "."@,
                dots@ == ".."@,
                category_of_path(path@) == category_from(all, i as int),
            decreases segments.len() - i,
        {
            if chars_eq(&segments[i], &posts) {
                let mut next: usize = i + 1;
                while next < segments.len() && (segments[next].len() == 0 || chars_eq(
                    &segments[next],
                    &dot,
                ))
                    invariant
                        i < next <= segments@.len(),
                        all == texts_view(segments@),
                        dot@ == "."@,
                        next_component(all, i + 1) == next_component(all, next as int),
                    decreases segments.len() - next,
                {
                    next += 1;
                }
                if next < segments.len() && !chars_eq(&segments[next], &dots) {
                    return Ok(string_of(&segments[next]));
                }
            }
            i += 1;
        }
        Err(ParseError::NoCategory)
    }

    /// Reads a post from the text of its file: the body after the
    /// frontmatter block, the slug and the category from the path. The
    /// frontmatter itself is given as already read.
    pub fn parse_file(path: &str, content: &str, frontmatter: Frontmatter) -> (post: Result<
        Post,
        ParseError,
    >)
        ensures
            match post {
                Ok(read) => post_parts(path@, content@) == Ok::<
                    (Seq<char>, Seq<char>, Seq<char>),
                    ParseError,
                >((read.slug@, read.category@, read.content@)) && read.frontmatter == frontmatter
                    && read.rendered_html is None,
                Err(error) => post_parts(path@, content@) == Err::<
                    (Seq<char>, Seq<char>, Seq<char>),
                    ParseError,
                >(error),
            },
    {
        let (_, body) = match Self::split_frontmatter(content) {
            Ok(parts) => parts,
            Err(error) => {
                return Err(error);
            },
        };
        let stem = match Self::path_to_slug(path) {
            Ok(stem) => stem,
            Err(error) => {
                return Err(error);
            },
        };
        let slug = Self::encode_slug(stem.as_str());
        let category = match Self::extract_category(path) {
            Ok(category) => category,
            Err(error) => {
                return Err(error);
            },
        };
        Ok(Post { slug, category, frontmatter, content: body.to_owned(), rendered_html: None })
    }

    /// Whether the text of a page starts with a frontmatter block.
    pub fn has_frontmatter(content: &str) -> (fenced: bool)
        ensures
            fenced == starts_with_fence(content@),
    {
        let s = chars_of(content);
        let mut a: usize = 0;
        while a < s.len() && crate::text::char_is_whitespace(s[a])
            invariant
                a <= s@.len(),
                skip_leading(s@, white(), 0) == skip_leading(s@, white(), a as int),
            decreases s.len() - a,
        {
            a += 1;
        }
        let rest = crate::text::slice_of(&s, a, s.len());
        starts_with(&rest, &chars_of("---"))
    }

    /// Reads a page from the text of its file. A page with a frontmatter
    /// block takes `frontmatter`, which must then be given; a page without
    /// one ignores it and is titled by its slug, hyphens read as spaces.
    pub fn parse_page_file(path: &str, content: &str, frontmatter: Option<PageFrontmatter>) -> (page:
        Result<Page, ParseError>)
        ensures
            match page {
                Ok(read) => {
                    &&& page_parts(path@, content@, frontmatter is Some) == Ok::<
                        (Seq<char>, Seq<char>, Option<Seq<char>>),
                        ParseError,
                    >(
                        (
                            read.slug@,
                            read.content@,
                            if starts_with_fence(content@) {
                                None
                            } else {
                                Some(read.frontmatter.title@)
                            },
                        ),
                    )
                    &&& read.rendered_html is None
                    &&& starts_with_fence(content@) ==> Some(read.frontmatter) == frontmatter
                    &&& !starts_with_fence(content@) ==> read.frontmatter.description is None
                        && !read.frontmatter.draft
                },
                Err(error) => page_parts(path@, content@, frontmatter is Some) == Err::<
                    (Seq<char>, Seq<char>, Option<Seq<char>>),
                    ParseError,
                >(error),
            },
    {
        let slug = match Self::path_to_slug(path) {
            Ok(stem) => stem,
            Err(error) => {
                return Err(error);
            },
        };
        if Self::has_frontmatter(content) {
            let (_, body) = match Self::split_frontmatter(content) {
                Ok(parts) => parts,
                Err(error) => {
                    return Err(error);
                },
            };
            match frontmatter {
                Some(given) => Ok(
                    Page { slug, frontmatter: given, content: body.to_owned(), rendered_html: None },
                ),
                None => Err(ParseError::InvalidFrontmatter),
            }
        } else if frontmatter.is_some() {
            // A page without a block has no frontmatter to take.
            let title = string_of(
                &replace_all(&chars_of(slug.as_str()), &chars_of("-"), &chars_of(" ")),
            );
            Ok(
                Page {
                    slug,
                    frontmatter: PageFrontmatter { title, description: None, draft: false },
                    content: content.to_owned(),
                    rendered_html: None,
                },
            )
        } else {
            let title = string_of(
                &replace_all(&chars_of(slug.as_str()), &chars_of("-"), &chars_of(" ")),
            );
            Ok(
                Page {
                    slug,
                    frontmatter: PageFrontmatter { title, description: None, draft: false },
                    content: content.to_owned(),
                    rendered_html: None,
                },
            )
        }
    }
}

} // verus!
