//! Categories: the directories of the content tree.

use vstd::prelude::*;

use crate::order::{is_stable_order, keys_of, lex_le, lex_le_from, sorted_order, text_key, Keyed};
use crate::parser::{file_name_span, Parser};
use crate::select::{kept, lemma_kept_step};
use crate::text::{chars_of, push_str, str_eq, string_of};
use crate::types::{default_category_index, Category};

verus! {

/// The upper-case form of a character, as Unicode defines it: one character
/// or several.
pub uninterp spec fn uppercase_of(c: char) -> Seq<char>;

/// `char::to_uppercase`, collected into a text.
#[verifier::external_body]
fn char_to_uppercase(c: char) -> (upper: String)
    ensures
        upper@ == uppercase_of(c),
{
    c.to_uppercase().collect()
}

/// `s` with its first character in upper case.
pub open spec fn capitalized(s: Seq<char>) -> Seq<char> {
    if s.len() == 0 {
        s
    } else {
        uppercase_of(s[0]) + s.subrange(1, s.len() as int)
    }
}

/// Whether a category with the slug `slug` is among `categories`.
pub open spec fn has_slug(categories: Seq<Category>, slug: Seq<char>) -> bool {
    exists|i: int| 0 <= i < categories.len() && (#[trigger] categories[i]).slug@ == slug
}

/// Position of the first category with the slug `slug` at or after `from`,
/// or the number of categories.
pub open spec fn first_with_slug(categories: Seq<Category>, slug: Seq<char>, from: int) -> int
    decreases categories.len() - from,
{
    if from < 0 || from >= categories.len() {
        categories.len() as int
    } else if categories[from].slug@ == slug {
        from
    } else {
        first_with_slug(categories, slug, from + 1)
    }
}

/// The categories that are shown in navigation.
pub open spec fn visible() -> spec_fn(Category) -> bool {
    |category: Category| !category.hidden
}

/// The categories that a vector of references to categories stands for.
pub open spec fn categories_of(refs: Seq<&Category>) -> Seq<Category> {
    refs.map_values(|r: &Category| *r)
}

/// Whether a file or directory is hidden: its name starts with `.` or `_`.
pub open spec fn hidden_name(path: Seq<char>) -> bool {
    match file_name_span(path, path.len() as int) {
        None => false,
        Some((start, _)) => path[start] == '.' || path[start] == '_',
    }
}

/// The key that orders categories: by index, then by name.
pub open spec fn category_key(index: i32, name: Seq<char>) -> Seq<int> {
    seq![index as int] + text_key(name)
}

impl Keyed for Category {
    open spec fn key(&self) -> Seq<int> {
        category_key(self.index, self.name@)
    }

    fn key_le(&self, other: &Self) -> (le: bool) {
        let ghost ka = category_key(self.index, self.name@);
        let ghost kb = category_key(other.index, other.name@);
        assert(lex_le(ka, kb) == if ka[0] != kb[0] {
            ka[0] < kb[0]
        } else {
            lex_le_from(ka, kb, 1)
        });
        if self.index != other.index {
            return self.index < other.index;
        }
        proof {
            lemma_shifted(text_key(self.name@), text_key(other.name@), self.index as int, 0);
        }
        crate::order::text_le(self.name.as_str(), other.name.as_str())
    }
}

/// Two keys that start with the same value compare as their remainders do.
proof fn lemma_shifted(a: Seq<int>, b: Seq<int>, head: int, i: int)
    requires
        0 <= i,
    ensures
        lex_le_from(seq![head] + a, seq![head] + b, i + 1) == lex_le_from(a, b, i),
    decreases a.len() - i,
{
    let x = seq![head] + a;
    let y = seq![head] + b;
    if i < a.len() && i < b.len() {
        assert(x[i + 1] == a[i]);
        assert(y[i + 1] == b[i]);
        if a[i] == b[i] {
            lemma_shifted(a, b, head, i + 1);
        }
    }
}

/// Whether a category with this slug exists.
pub fn validate_category(slug: &str, categories: &[Category]) -> (known: bool)
    ensures
        known == has_slug(categories@, slug@),
{
    let mut i: usize = 0;
    while i < categories.len()
        invariant
            i <= categories@.len(),
            forall|j: int| 0 <= j < i ==> (#[trigger] categories@[j]).slug@ != slug@,
        decreases categories.len() - i,
    {
        if str_eq(categories[i].slug.as_str(), slug) {
            return true;
        }
        i += 1;
    }
    false
}

/// The first category with this slug, if there is one.
pub fn get_category_by_slug<'a>(slug: &str, categories: &'a [Category]) -> (found: Option<
    &'a Category,
>)
    ensures
        match found {
            Some(category) => first_with_slug(categories@, slug@, 0) < categories@.len()
                && *category == categories@[first_with_slug(categories@, slug@, 0)],
            None => first_with_slug(categories@, slug@, 0) == categories@.len(),
        },
{
    let mut i: usize = 0;
    while i < categories.len()
        invariant
            i <= categories@.len(),
            first_with_slug(categories@, slug@, 0) == first_with_slug(categories@, slug@, i as int),
        decreases categories.len() - i,
    {
        if str_eq(categories[i].slug.as_str(), slug) {
            return Some(&categories[i]);
        }
        i += 1;
    }
    None
}

/// The categories that are not hidden, in their order.
pub fn get_visible_categories(categories: &[Category]) -> (shown: Vec<&Category>)
    ensures
        categories_of(shown@) == kept(categories@, visible()),
{
    let mut shown: Vec<&Category> = Vec::new();
    let mut i: usize = 0;
    assert(categories@.subrange(0, 0) == Seq::<Category>::empty());
    assert(categories_of(shown@) == Seq::<Category>::empty());
    while i < categories.len()
        invariant
            i <= categories@.len(),
            categories_of(shown@) == kept(categories@.subrange(0, i as int), visible()),
        decreases categories.len() - i,
    {
        proof {
            lemma_kept_step(categories@, visible(), i as int);
        }
        if !categories[i].hidden {
            let ghost before = categories_of(shown@);
            shown.push(&categories[i]);
            assert(categories_of(shown@) == before.push(categories@[i as int]));
        }
        i += 1;
    }
    assert(categories@.subrange(0, categories@.len() as int) == categories@);
    shown
}

/// `s` with its first character in upper case.
pub fn capitalize(s: &str) -> (out: String)
    ensures
        out@ == capitalized(s@),
{
    let chars = chars_of(s);
    if chars.len() == 0 {
        return String::new();
    }
    let mut out: Vec<char> = Vec::new();
    push_str(&mut out, char_to_uppercase(chars[0]).as_str());
    crate::text::push_range(&mut out, &chars, 1, chars.len());
    string_of(&out)
}

/// Whether a file or directory is hidden: its name starts with `.` or `_`.
pub fn is_hidden(path: &str) -> (hidden: bool)
    ensures
        hidden == hidden_name(path@),
{
    let p = chars_of(path);
    match Parser::file_name_bounds(&p) {
        None => false,
        Some((start, stop)) => {
            proof {
                crate::parser::lemma_file_name_span(p@, p@.len() as int);
            }
            p[start] == '.' || p[start] == '_'
        },
    }
}

/// Whether a file extension marks a Markdown file.
pub fn is_markdown_extension(extension: &str) -> (markdown: bool)
    ensures
        markdown == (extension@ == "md"@ || extension@ == "markdown"@),
{
    str_eq(extension, "md") || str_eq(extension, "markdown")
}

/// The category that a directory stands for when it states nothing about
/// itself: named by its capitalized slug, shown, and sorted last.
pub fn default_category(slug: &str) -> (category: Category)
    ensures
        category.slug@ == slug@,
        category.name@ == capitalized(slug@),
        category.description@ == Seq::<char>::empty(),
        category.index == 999,
        !category.hidden,
        category.icon is None,
        category.color is None,
        category.cover_image is None,
{
    Category {
        slug: slug.to_owned(),
        name: capitalize(slug),
        description: String::new(),
        index: default_category_index(),
        hidden: false,
        icon: None,
        color: None,
        cover_image: None,
    }
}

/// The positions of `categories` in their sorted order: by index, then by
/// name; categories equal in both stay in their order.
pub fn category_order(categories: &Vec<Category>) -> (order: Vec<usize>)
    ensures
        is_stable_order(keys_of(categories@), order@),
{
    sorted_order::<Category, int>(categories, Ghost(Seq::new(categories@.len(), |i: int| i)))
}

} // verus!
