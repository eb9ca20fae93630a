//! Where the pages of a site are written.

use vstd::prelude::*;
use crate::parser::Page;
use crate::slug::{encode_for_url, url_encoded};
use crate::text::{
    chars_of, ends_with, has_prefix, has_suffix, push_all, starts_with, str_eq, string_of,
};
use crate::types::Post;

verus! {

/// The text of a lower-cased string, as `str::to_lowercase` gives it.
pub uninterp spec fn lowercase_of(text: Seq<char>) -> Seq<char>;

/// `str::to_lowercase`.
#[verifier::external_body]
pub(crate) fn to_lowercase(text: &str) -> (lower: String)
    ensures
        lower@ == lowercase_of(text@),
{
    text.to_lowercase()
}

/// The path of `name` below `base`: `name` itself where it is absolute or
/// `base` is empty, else `base`, a separator unless `base` ends with one,
/// and `name`.
pub open spec fn joined(base: Seq<char>, name: Seq<char>) -> Seq<char> {
    if has_prefix(name, seq!['/']) || base.len() == 0 {
        name
    } else if has_suffix(base, seq!['/']) {
        base + name
    } else {
        base + seq!['/'] + name
    }
}

/// The path of `name` below `base`.
pub fn join_path(base: &str, name: &str) -> (path: String)
    ensures
        path@ == joined(base@, name@),
{
    let b = chars_of(base);
    let n = chars_of(name);
    let mut slash: Vec<char> = Vec::new();
    slash.push('/');
    assert(slash@ == seq!['/']);
    if starts_with(&n, &slash) || b.len() == 0 {
        return string_of(&n);
    }
    let mut out: Vec<char> = Vec::new();
    push_all(&mut out, &b);
    if !ends_with(&b, &slash) {
        push_all(&mut out, &slash);
    }
    push_all(&mut out, &n);
    string_of(&out)
}

/// A slug or category as it stands in a path: encoded for URLs where the
/// site asks for that.
pub open spec fn path_segment(encode: bool, s: Seq<char>) -> Seq<char> {
    if encode {
        url_encoded(s)
    } else {
        s
    }
}

/// Where the page of a post is written.
pub open spec fn post_path(
    output_dir: Seq<char>,
    encode: bool,
    category: Seq<char>,
    slug: Seq<char>,
) -> Seq<char> {
    joined(
        joined(joined(output_dir, path_segment(encode, category)), path_segment(encode, slug)),
        "index.html"@,
    )
}

/// Where a page outside the categories is written.
pub open spec fn page_path(output_dir: Seq<char>, encode: bool, slug: Seq<char>) -> Seq<char> {
    joined(joined(output_dir, path_segment(encode, slug)), "index.html"@)
}

/// The extensions of the files that are copied from the content tree to
/// the site: images, media and documents.
pub open spec fn is_asset_kind(extension: Seq<char>) -> bool {
    ||| extension == "png"@
    ||| extension == "jpg"@
    ||| extension == "jpeg"@
    ||| extension == "gif"@
    ||| extension == "webp"@
    ||| extension == "svg"@
    ||| extension == "ico"@
    ||| extension == "bmp"@
    ||| extension == "mp4"@
    ||| extension == "webm"@
    ||| extension == "mp3"@
    ||| extension == "wav"@
    ||| extension == "pdf"@
    ||| extension == "zip"@
    ||| extension == "tar"@
    ||| extension == "gz"@
}

/// Whether a file of the content tree with this extension is copied to
/// the site. The case of the extension does not matter.
pub fn is_copied_asset(extension: &str) -> (copied: bool)
    ensures
        copied == is_asset_kind(lowercase_of(extension@)),
{
    let lower = to_lowercase(extension);
    let e = lower.as_str();
    str_eq(e, "png") || str_eq(e, "jpg") || str_eq(e, "jpeg") || str_eq(e, "gif") || str_eq(
        e,
        "webp",
    ) || str_eq(e, "svg") || str_eq(e, "ico") || str_eq(e, "bmp") || str_eq(e, "mp4") || str_eq(
        e,
        "webm",
    ) || str_eq(e, "mp3") || str_eq(e, "wav") || str_eq(e, "pdf") || str_eq(e, "zip") || str_eq(
        e,
        "tar",
    ) || str_eq(e, "gz")
}

/// Knows where pages go, and holds the template engine of the theme.
pub struct Generator {
    tera: tera::Tera,
    output_dir: String,
    encode_filenames: bool,
}

impl Generator {
    /// The directory that the site is written to.
    pub closed spec fn output_dir(&self) -> Seq<char> {
        self.output_dir@
    }

    /// Whether slugs and categories are encoded in paths.
    pub closed spec fn encodes(&self) -> bool {
        self.encode_filenames
    }

    /// The template engine.
    pub closed spec fn engine(&self) -> tera::Tera {
        self.tera
    }

    /// A generator that writes below `output_dir` with the templates in
    /// `tera`.
    pub fn new(tera: tera::Tera, output_dir: &str, encode_filenames: bool) -> (generator: Self)
        ensures
            generator.engine() == tera,
            generator.output_dir() == output_dir@,
            generator.encodes() == encode_filenames,
    {
        Generator { tera, output_dir: output_dir.to_owned(), encode_filenames }
    }

    /// The template engine.
    pub fn get_tera(&self) -> (tera: &tera::Tera)
        ensures
            *tera == self.engine(),
    {
        &self.tera
    }

    /// A slug or category as it stands in a path.
    pub fn maybe_encode(&self, s: &str) -> (segment: String)
        ensures
            segment@ == path_segment(self.encodes(), s@),
    {
        if self.encode_filenames {
            encode_for_url(s)
        } else {
            s.to_owned()
        }
    }

    /// Where the page of `post` is written.
    pub fn get_post_path(&self, post: &Post) -> (path: String)
        ensures
            path@ == post_path(self.output_dir(), self.encodes(), post.category@, post.slug@),
    {
        let category = self.maybe_encode(post.category.as_str());
        let slug = self.maybe_encode(post.slug.as_str());
        let below = join_path(self.output_dir.as_str(), category.as_str());
        let dir = join_path(below.as_str(), slug.as_str());
        join_path(dir.as_str(), "index.html")
    }

    /// Where `page` is written.
    pub fn get_page_path(&self, page: &Page) -> (path: String)
        ensures
            path@ == page_path(self.output_dir(), self.encodes(), page.slug@),
    {
        let slug = self.maybe_encode(page.slug.as_str());
        let dir = join_path(self.output_dir.as_str(), slug.as_str());
        join_path(dir.as_str(), "index.html")
    }
}

} // verus!
