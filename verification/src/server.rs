//! What the development server and the file watcher decide.

use vstd::prelude::*;
use crate::slug::{decode_from_url, url_decoded};
use crate::text::{
    char_is_whitespace, chars_of, ends_with, find_char, find_sub, first_index_of, first_occurrence,
    has_suffix, is_whitespace, push_all, push_str, skip_leading, str_eq, string_of, string_of_range,
    white,
};

verus! {

/// The content type of a file, by the end of its path.
pub open spec fn content_type_of(path: Seq<char>) -> Seq<char> {
    if has_suffix(path, ".html"@) {
        "text/html"@
    } else if has_suffix(path, ".css"@) {
        "text/css"@
    } else if has_suffix(path, ".js"@) {
        "application/javascript"@
    } else if has_suffix(path, ".png"@) {
        "image/png"@
    } else if has_suffix(path, ".jpg"@) || has_suffix(path, ".jpeg"@) {
        "image/jpeg"@
    } else if has_suffix(path, ".svg"@) {
        "image/svg+xml"@
    } else {
        "application/octet-stream"@
    }
}

/// The content type of a file, by the end of its path.
pub fn get_content_type(path: &str) -> (content_type: &'static str)
    ensures
        content_type@ == content_type_of(path@),
{
    let p = chars_of(path);
    if ends_with(&p, &chars_of(".html")) {
        "text/html"
    } else if ends_with(&p, &chars_of(".css")) {
        "text/css"
    } else if ends_with(&p, &chars_of(".js")) {
        "application/javascript"
    } else if ends_with(&p, &chars_of(".png")) {
        "image/png"
    } else if ends_with(&p, &chars_of(".jpg")) || ends_with(&p, &chars_of(".jpeg")) {
        "image/jpeg"
    } else if ends_with(&p, &chars_of(".svg")) {
        "image/svg+xml"
    } else {
        "application/octet-stream"
    }
}

/// The file that is served for a requested path: the site's index for `/`,
/// the index of a directory for a path that ends in `/`, else the file of
/// that path, all below `dist`.
pub open spec fn served_file(path: Seq<char>) -> Seq<char> {
    if path == "/"@ {
        "dist/index.html"@
    } else if has_suffix(path, "/"@) {
        "dist"@ + path + "index.html"@
    } else {
        "dist"@ + path
    }
}

/// The file that is served for a requested path.
pub fn served_file_path(path: &str) -> (file: String)
    ensures
        file@ == served_file(path@),
{
    let p = chars_of(path);
    if str_eq(path, "/") {
        return "dist/index.html".to_owned();
    }
    let mut out: Vec<char> = Vec::new();
    push_str(&mut out, "dist");
    push_all(&mut out, &p);
    if ends_with(&p, &chars_of("/")) {
        push_str(&mut out, "index.html");
    }
    string_of(&out)
}

/// The index file that is tried where a requested path names no file.
pub fn directory_index_path(file: &str) -> (index: String)
    ensures
        index@ == file@ + "/index.html"@,
{
    let mut out = chars_of(file);
    push_str(&mut out, "/index.html");
    string_of(&out)
}

/// What happened to a watched file.
#[derive(Debug, Clone, Copy, PartialEq, Eq, Structural)]
pub enum ChangeKind {
    Create,
    Modify,
    Remove,
    /// An access, or anything else that changes no content.
    Other,
}

/// Whether `text` holds `part`.
pub open spec fn holds(text: Seq<char>, part: Seq<char>) -> bool {
    first_occurrence(text, part, 0) is Some
}

/// Whether a path lies in what the build itself writes: the cache
/// directory or the site.
pub open spec fn is_build_output(path: Seq<char>) -> bool {
    holds(path, ".build-cache"@) || holds(path, "dist/"@)
}

/// Whether a change to watched files calls for a rebuild: files were
/// created, modified or removed, and none of them is written by the build.
pub open spec fn calls_for_rebuild(kind: ChangeKind, paths: Seq<String>) -> bool {
    kind != ChangeKind::Other && forall|i: int|
        0 <= i < paths.len() ==> !is_build_output((#[trigger] paths[i])@)
}

/// Whether a change to watched files calls for a rebuild.
pub fn should_rebuild(kind: ChangeKind, paths: &Vec<String>) -> (rebuild: bool)
    ensures
        rebuild == calls_for_rebuild(kind, paths@),
{
    match kind {
        ChangeKind::Other => false,
        _ => {
            let cache_dir = chars_of(".build-cache");
            let site_dir = chars_of("dist/");
            let mut i: usize = 0;
            while i < paths.len()
                invariant
                    i <= paths@.len(),
                    cache_dir@ == ".build-cache"@,
                    site_dir@ == "dist/"@,
                    forall|j: int| 0 <= j < i ==> !is_build_output((#[trigger] paths@[j])@),
                decreases paths.len() - i,
            {
                let p = chars_of(paths[i].as_str());
                if find_sub(&p, &cache_dir, 0).is_some() || find_sub(&p, &site_dir, 0).is_some() {
                    return false;
                }
                i += 1;
            }
            true
        },
    }
}

/// The characters that are no white space.
pub open spec fn inked() -> spec_fn(char) -> bool {
    |c: char| !is_whitespace(c)
}

/// The bounds of the second word of the first line of `request`, if that
/// line has two words.
pub open spec fn target_span(request: Seq<char>) -> Option<(int, int)> {
    let line_end = first_index_of(request, '\n', 0);
    let line = request.subrange(0, line_end);
    let first = skip_leading(line, white(), 0);
    let first_end = skip_leading(line, inked(), first);
    let second = skip_leading(line, white(), first_end);
    let second_end = skip_leading(line, inked(), second);
    if second < second_end {
        Some((second, second_end))
    } else {
        None
    }
}

/// The path that a request asks for: the second word of its first line,
/// percent-decoded; `/` where the line has no second word.
pub open spec fn requested_path(request: Seq<char>) -> Seq<char> {
    match target_span(request) {
        Some((from, to)) => url_decoded(request.subrange(from, to)),
        None => "/"@,
    }
}

/// First position at or after `from` that holds white space, or none at
/// all, as `inked` says.
fn skip_class(line: &Vec<char>, inked_run: bool, from: usize) -> (at: usize)
    requires
        from <= line@.len(),
    ensures
        from <= at <= line@.len(),
        at == skip_leading(
            line@,
            if inked_run {
                inked()
            } else {
                white()
            },
            from as int,
        ),
{
    let mut k: usize = from;
    while k < line.len() && char_is_whitespace(line[k]) != inked_run
        invariant
            from <= k <= line@.len(),
            skip_leading(
                line@,
                if inked_run {
                    inked()
                } else {
                    white()
                },
                from as int,
            ) == skip_leading(
                line@,
                if inked_run {
                    inked()
                } else {
                    white()
                },
                k as int,
            ),
        decreases line.len() - k,
    {
        assert(inked()(line@[k as int]) == !is_whitespace(line@[k as int]));
        assert(white()(line@[k as int]) == is_whitespace(line@[k as int]));
        k += 1;
    }
    proof {
        if k < line@.len() {
            assert(inked()(line@[k as int]) == !is_whitespace(line@[k as int]));
            assert(white()(line@[k as int]) == is_whitespace(line@[k as int]));
        }
    }
    k
}

/// The path that a request asks for.
pub fn request_target(request: &str) -> (path: String)
    ensures
        path@ == requested_path(request@),
{
    let r = chars_of(request);
    let line_end = find_char(&r, '\n', 0);
    let line = crate::text::slice_of(&r, 0, line_end);
    let first = skip_class(&line, false, 0);
    let first_end = skip_class(&line, true, first);
    let second = skip_class(&line, false, first_end);
    let second_end = skip_class(&line, true, second);
    if second < second_end {
        let word = string_of_range(&line, second, second_end);
        assert(line@.subrange(second as int, second_end as int) == r@.subrange(
            second as int,
            second_end as int,
        ));
        decode_from_url(word.as_str())
    } else {
        "/".to_owned()
    }
}

} // verus!
