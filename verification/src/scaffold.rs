//! Starting a new post: its slug, its file and its first content.

use vstd::prelude::*;
use crate::generator::{lowercase_of, to_lowercase};
use crate::select::{kept, lemma_kept_step};
use crate::text::{chars_of, push_str, replace_all, replaced, string_of};

verus! {

/// Whether a character is a letter or a digit, as Unicode defines it.
pub uninterp spec fn is_alphanumeric(c: char) -> bool;

/// `char::is_alphanumeric`.
#[verifier::external_body]
fn char_is_alphanumeric(c: char) -> (alphanumeric: bool)
    ensures
        alphanumeric == is_alphanumeric(c),
{
    c.is_alphanumeric()
}

/// The characters that stay in a slug: letters, digits and the hyphen.
pub open spec fn slug_chars() -> spec_fn(char) -> bool {
    |c: char| is_alphanumeric(c) || c == '-'
}

/// The slug for a post with the title `title`: the title in lower case,
/// spaces turned into hyphens, and of the rest only letters, digits and
/// hyphens kept.
pub open spec fn slug_of_title(title: Seq<char>) -> Seq<char> {
    kept(replaced(lowercase_of(title), " "@, "-"@), slug_chars())
}

/// The slug for a post with the title `title`.
pub fn title_slug(title: &str) -> (slug: String)
    ensures
        slug@ == slug_of_title(title@),
{
    let lower = to_lowercase(title);
    let hyphened = replace_all(&chars_of(lower.as_str()), &chars_of(" "), &chars_of("-"));
    let mut out: Vec<char> = Vec::new();
    let mut i: usize = 0;
    assert(hyphened@.subrange(0, 0) == Seq::<char>::empty());
    while i < hyphened.len()
        invariant
            i <= hyphened@.len(),
            out@ == kept(hyphened@.subrange(0, i as int), slug_chars()),
        decreases hyphened.len() - i,
    {
        proof {
            lemma_kept_step(hyphened@, slug_chars(), i as int);
        }
        let c = hyphened[i];
        if char_is_alphanumeric(c) || c == '-' {
            out.push(c);
        }
        i += 1;
    }
    assert(hyphened@.subrange(0, hyphened@.len() as int) == hyphened@);
    string_of(&out)
}

/// The directory of the posts of a category.
pub fn new_post_directory(category: &str) -> (dir: String)
    ensures
        dir@ == "content/posts/"@ + category@,
{
    let mut out = chars_of("content/posts/");
    push_str(&mut out, category);
    string_of(&out)
}

/// The file of a new post.
pub fn new_post_file_name(category: &str, slug: &str) -> (file: String)
    ensures
        file@ == "content/posts/"@ + category@ + "/"@ + slug@ + ".md"@,
{
    let mut out = chars_of("content/posts/");
    push_str(&mut out, category);
    push_str(&mut out, "/");
    push_str(&mut out, slug);
    push_str(&mut out, ".md");
    string_of(&out)
}

/// What a new post holds: its frontmatter, with the date as given, and a
/// line to be replaced by the post.
pub fn new_post_content(title: &str, date: &str, category: &str) -> (content: String)
    ensures
        content@ == "---\ntitle: \""@ + title@ + "\"\ndate: "@ + date@ + "\ncategory: "@ + category@
            + "\ntags: []\ndraft: false\n---\n\nWrite your post here...\n"@,
{
    let mut out = chars_of("---\ntitle: \"");
    push_str(&mut out, title);
    push_str(&mut out, "\"\ndate: ");
    push_str(&mut out, date);
    push_str(&mut out, "\ncategory: ");
    push_str(&mut out, category);
    push_str(&mut out, "\ntags: []\ndraft: false\n---\n\nWrite your post here...\n");
    string_of(&out)
}

} // verus!
