use ssdocs::category::{
    capitalize, category_order, default_category, get_category_by_slug, get_visible_categories, is_hidden,
    is_markdown_extension, validate_category,
};
use ssdocs::config::SsgConfig;
use ssdocs::feeds::FeedGenerator;
use ssdocs::types::{default_category_index, Category};

fn category(slug: &str, name: &str, index: i32, hidden: bool) -> Category {
    Category {
        slug: slug.to_string(),
        name: name.to_string(),
        description: String::new(),
        index,
        hidden,
        icon: None,
        color: None,
        cover_image: None,
    }
}

#[test]
fn test_validate_category() {
    let categories = vec![category("dev", "Development", 0, false), category("blog", "Blog", 1, false)];

    assert!(validate_category("dev", &categories));
    assert!(validate_category("blog", &categories));
    assert!(!validate_category("invalid", &categories));
}

#[test]
fn test_get_visible_categories() {
    let categories = vec![category("dev", "Development", 0, false), category("drafts", "Drafts", 1, true)];

    let visible = get_visible_categories(&categories);
    assert_eq!(visible.len(), 1);
    assert_eq!(visible[0].slug, "dev");
}

#[test]
fn test_capitalize() {
    assert_eq!(capitalize("dev"), "Dev");
    assert_eq!(capitalize("tutorials"), "Tutorials");
    assert_eq!(capitalize(""), "");
}

#[test]
fn capitalize_may_lengthen() {
    assert_eq!(capitalize("ßa"), "SSa");
    assert_eq!(capitalize("1x"), "1x");
}

#[test]
fn get_category_by_slug_returns_first_match() {
    let categories = vec![category("dev", "One", 0, false), category("dev", "Two", 1, false)];
    assert_eq!(get_category_by_slug("dev", &categories).unwrap().name, "One");
    assert!(get_category_by_slug("none", &categories).is_none());
}

#[test]
fn hidden_names() {
    assert!(is_hidden("content/.hidden"));
    assert!(is_hidden("content/_private/"));
    assert!(!is_hidden("content/dev"));
    assert!(!is_hidden(".hidden/dev"));
    assert!(!is_hidden(""));
}

#[test]
fn markdown_extensions() {
    assert!(is_markdown_extension("md"));
    assert!(is_markdown_extension("markdown"));
    assert!(!is_markdown_extension("MD"));
    assert!(!is_markdown_extension("txt"));
}

#[test]
fn default_category_from_slug() {
    let made = default_category("dev");
    assert_eq!(made, category("dev", "Dev", 999, false));
    assert_eq!(default_category_index(), 999);
}

#[test]
fn test_category_sorting() {
    let categories = vec![category("zzz", "Zzz", 0, false), category("aaa", "Aaa", 2, false), category("mmm", "Mmm", 1, false)];
    let order = category_order(&categories);
    assert_eq!(categories[order[0]].slug, "zzz");
    assert_eq!(categories[order[1]].slug, "mmm");
    assert_eq!(categories[order[2]].slug, "aaa");
}

#[test]
fn categories_with_equal_index_sort_by_name() {
    let categories = vec![category("b", "Beta", 1, false), category("a", "Alpha", 1, false), category("c", "Alpha", 1, false)];
    assert_eq!(category_order(&categories), vec![1, 2, 0]);
}

#[test]
fn test_default_config() {
    let config = SsgConfig::default();
    assert_eq!(config.site.title, "marshallku blog");
    assert_eq!(config.theme.name, "default");
    assert_eq!(config.build.posts_per_page, 10);
}

#[test]
fn default_config_values() {
    let config = SsgConfig::default();
    assert_eq!(config.site.url, "https://marshallku.com");
    assert_eq!(config.site.author, "Marshall K");
    assert_eq!(config.site.description, "marshallku blog");
    assert_eq!(config.build.content_dir, "content/posts");
    assert_eq!(config.build.output_dir, "dist");
    assert_eq!(config.theme.custom_dir, None);
}

#[test]
fn test_escape_xml() {
    let input = r#"Hello & <world> "test""#;
    let expected = r#"Hello &amp; &lt;world&gt; &quot;test&quot;"#;
    assert_eq!(FeedGenerator::escape_xml(input), expected);
}

#[test]
fn escape_xml_apostrophe_and_order() {
    assert_eq!(FeedGenerator::escape_xml("it's &lt;"), "it&apos;s &amp;lt;");
}
