use ssdocs::category::{default_category, is_hidden};
use ssdocs::markup::{find_elements, parse_attributes, splice, tag_attributes, ElementSpan};
use ssdocs::text::{chars_of, decimal_of, replace_all, split, string_of, trim, trim_char};

fn chars(s: &str) -> Vec<char> {
    s.chars().collect()
}

fn spans(html: &str, tag: &str) -> Vec<(usize, usize, usize, usize)> {
    find_elements(&chars(html), &chars(tag)).iter().map(|s| (s.start, s.open_end, s.close_start, s.end)).collect()
}

#[test]
fn outer_element_closes_at_its_own_closing_tag() {
    let html = "<div><a href=\"x\"><a href=\"y\">Z</a></a></div>";
    assert_eq!(spans(html, "a"), vec![(5, 17, 34, 38)]);
    assert_eq!(spans(html, "div"), vec![(0, 5, 38, 44)]);
    assert!(spans(html, "p").is_empty());
}

#[test]
fn elements_in_sequence_and_self_closing() {
    let html = "<p>a</p><img src=\"x\" /><p class=\"c\">b</p>";
    assert_eq!(spans(html, "p"), vec![(0, 3, 4, 8), (23, 36, 37, 41)]);
    assert_eq!(spans(html, "img"), vec![(8, 23, 23, 23)]);
}

#[test]
fn unclosed_element_runs_to_the_end() {
    assert_eq!(spans("x<p>abc", "p"), vec![(1, 4, 7, 7)]);
    assert_eq!(spans("x<p", "p"), vec![]);
    assert_eq!(spans("<pre>a<pre>b</pre>c", "pre"), vec![(0, 5, 19, 19)]);
}

#[test]
fn quotes_hide_angle_brackets_in_opening_tags() {
    let html = "<a title=\"1 > 0\" href='>'>x</a>";
    assert_eq!(spans(html, "a"), vec![(0, 26, 27, 31)]);
    assert_eq!(spans("<ab>x</ab><a>y</a>", "a"), vec![(10, 13, 14, 18)]);
}

#[test]
fn a_tag_swallows_what_stands_before_its_end() {
    assert_eq!(spans("a < b <i>c</i>", "i"), vec![]);
}

#[test]
fn splice_replaces_and_copies() {
    let html = chars("<p>a</p>-<p>b</p>!");
    let found = find_elements(&html, &chars("p"));
    let out = splice(&html, &found, &vec![Some(chars("[A]")), None]);
    assert_eq!(string_of(&out), "[A]-<p>b</p>!");
    let same = splice(&html, &found, &vec![None, None]);
    assert_eq!(same, html);
    let none: Vec<ElementSpan> = Vec::new();
    assert_eq!(splice(&html, &none, &Vec::new()), html);
}

#[test]
fn attributes_in_all_forms() {
    let pairs = |text: &str| -> Vec<(String, String)> { parse_attributes(&chars(text)) };
    let pair = |k: &str, v: &str| (k.to_string(), v.to_string());
    assert_eq!(pairs("a=1 b = \"x y\"  c='z' d"), vec![pair("a", "1"), pair("b", "x y"), pair("c", "z"), pair("d", "true")]);
    assert_eq!(pairs("a=\"open"), vec![pair("a", "open")]);
    assert_eq!(pairs("a="), vec![pair("a", "")]);
    assert_eq!(pairs("a = "), vec![pair("a", "")]);
    assert_eq!(pairs("=x b"), vec![]);
    assert_eq!(pairs("a a=2"), vec![pair("a", "true"), pair("a", "2")]);
    assert_eq!(tag_attributes(&chars("<<img src=x/>>")), vec![pair("src", "x")]);
    assert!(tag_attributes(&chars("<br/>")).is_empty());
}

#[test]
fn text_helpers() {
    assert_eq!(string_of(&trim(&chars(" \t\u{a0}a b\u{3000}\n"))), "a b");
    assert_eq!(string_of(&trim_char(&chars("//a/b//"), '/')), "a/b");
    assert_eq!(string_of(&trim_char(&chars("///"), '/')), "");
    let parts: Vec<String> = split(&chars("a//b/"), '/').iter().map(string_of).collect();
    assert_eq!(parts, vec!["a", "", "b", ""]);
    assert_eq!(split(&chars(""), '/').len(), 1);
    assert_eq!(string_of(&replace_all(&chars("aaa"), &chars("aa"), &chars("b"))), "ba");
    assert_eq!(string_of(&replace_all(&chars("abc"), &chars(""), &chars("x"))), "abc");
    assert_eq!(chars_of("한글"), vec!['한', '글']);
    for n in [0usize, 7, 10, 99, 100, 12345, usize::MAX] {
        assert_eq!(string_of(&decimal_of(n)), n.to_string());
    }
}

#[test]
fn test_hidden_directories_ignored() {
    assert!(is_hidden(".hidden"));
    assert!(is_hidden("content/.hidden"));
    assert!(is_hidden("_private"));
    assert!(is_hidden("content/_private"));
    assert!(!is_hidden("content/dev"));
}

#[test]
fn test_discover_categories() {
    let category = default_category("dev");
    assert_eq!(category.slug, "dev");
    assert_eq!(category.name, "Dev");
    assert_eq!(category.index, 999);
}
