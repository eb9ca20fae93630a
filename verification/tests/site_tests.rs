use std::collections::HashMap;

use ssdocs::feeds::{first_posts, FeedChannel, FeedGenerator, FeedItem, FEED_LIMIT};
use ssdocs::generator::{is_copied_asset, join_path, Generator};
use ssdocs::indices::{build_pagination_context, listing_output_path, page_bounds, page_link_url, total_pages};
use ssdocs::metadata::{MetadataCache, PostMetadata};
use ssdocs::parser::{Page, PageFrontmatter};
use ssdocs::plugins::related_posts::RelatedPostsPlugin;
use ssdocs::renderer::{Renderer, ThemeColours};
use ssdocs::scaffold::{new_post_content, new_post_directory, new_post_file_name, title_slug};
use ssdocs::search::{SearchEntry, SearchIndexGenerator};
use ssdocs::server::{
    directory_index_path, get_content_type, request_target, served_file_path, should_rebuild, ChangeKind,
};
use ssdocs::theme::{
    get_default_theme_metadata, get_theme_info, locate_theme, merge_variables, named_theme, resolve_static_paths,
    resolve_template_paths, validate_required_templates, ThemeError, ThemeSource,
};
use ssdocs::types::{Category, Frontmatter, Post, PostDate};
use tera::Tera;

fn frontmatter(title: &str, seconds: i64, tags: Vec<&str>, draft: bool) -> Frontmatter {
    Frontmatter {
        title: title.to_string(),
        date: PostDate { seconds, nanos: 0 },
        category: "dev".to_string(),
        tags: tags.iter().map(|s| s.to_string()).collect(),
        featured_image: None,
        description: None,
        draft,
    }
}

fn meta(slug: &str, category: &str, seconds: i64, draft: bool) -> PostMetadata {
    PostMetadata { slug: slug.to_string(), category: category.to_string(), frontmatter: frontmatter(slug, seconds, vec![], draft) }
}

fn create_test_metadata() -> MetadataCache {
    let mut metadata = MetadataCache::new();
    let mut fm = frontmatter("Test Post", 1_700_000_000, vec!["rust", "test"], false);
    fm.description = Some("A test post".to_string());
    metadata.upsert_post("test-post".to_string(), "dev".to_string(), fm);
    metadata
}

#[test]
fn test_search_entry_creation() {
    let metadata = create_test_metadata();
    let generator = SearchIndexGenerator::new(false);

    let post = &metadata.posts[0];
    let entry: SearchEntry = generator.entry_for(post);

    assert_eq!(entry.title, "Test Post");
    assert_eq!(entry.url, "/dev/test-post/");
    assert_eq!(entry.tags.len(), 2);
}

#[test]
fn search_index_lists_published_posts_newest_day_first() {
    let posts = vec![
        meta("old", "dev", 1_600_000_000, false),
        meta("draft", "dev", 1_800_000_000, true),
        meta("한글", "글", 1_700_000_000, false),
        meta("same-day", "dev", 1_700_000_060, false),
    ];
    let index = SearchIndexGenerator::new(true).build_index(&posts);
    assert_eq!(index.version, "1.0");
    let urls: Vec<&str> = index.posts.iter().map(|e| e.url.as_str()).collect();
    assert_eq!(urls, vec!["/%EA%B8%80/%ED%95%9C%EA%B8%80/", "/dev/same-day/", "/dev/old/"]);
    assert_eq!(index.posts[0].date, "2023-11-14");
    assert_eq!(index.posts[2].date, "2020-09-13");
    let plain = SearchIndexGenerator::new(false).build_index(&posts);
    assert_eq!(plain.posts[0].url, "/글/한글/");
    let out_of_range = vec![meta("far", "dev", i64::MAX, false)];
    assert_eq!(SearchIndexGenerator::new(false).build_index(&out_of_range).posts[0].date, "");
}

#[test]
fn test_merge_variables() {
    let parent = vec![
        ("color".to_string(), serde_yaml::Value::String("red".to_string())),
        ("font".to_string(), serde_yaml::Value::String("Arial".to_string())),
    ];
    let child = vec![("color".to_string(), serde_yaml::Value::String("blue".to_string()))];
    let site_overrides = vec![("font".to_string(), serde_yaml::Value::String("Helvetica".to_string()))];

    let merged: HashMap<String, serde_yaml::Value> = merge_variables(parent, child, site_overrides).into_iter().collect();

    assert_eq!(merged.get("color").unwrap(), &serde_yaml::Value::String("blue".to_string()));
    assert_eq!(merged.get("font").unwrap(), &serde_yaml::Value::String("Helvetica".to_string()));
}

#[test]
fn merge_variables_keeps_order_of_precedence() {
    let merged = merge_variables(vec![("a".to_string(), 1)], vec![("a".to_string(), 2)], vec![("b".to_string(), 3)]);
    assert_eq!(merged, vec![("a".to_string(), 1), ("a".to_string(), 2), ("b".to_string(), 3)]);
}

#[test]
fn theme_location() {
    assert_eq!(locate_theme("dark", true, false, true), Ok(ThemeSource::MetadataFile));
    assert_eq!(locate_theme("dark", true, true, false), Err(ThemeError::MissingMetadata));
    assert_eq!(locate_theme("dark", false, true, true), Err(ThemeError::NotFound));
    assert_eq!(locate_theme("default", false, true, false), Ok(ThemeSource::LegacyTemplates));
    assert_eq!(locate_theme("default", false, false, false), Err(ThemeError::NotFound));
}

#[test]
fn theme_paths() {
    let parent = Some("base".to_string());
    assert_eq!(resolve_template_paths("themes", "dark", &parent, true, true), Ok(vec!["themes/dark".to_string(), "themes/base".to_string()]));
    assert_eq!(resolve_template_paths("themes", "dark", &parent, false, true), Ok(vec!["themes/base".to_string()]));
    assert_eq!(resolve_template_paths("themes", "dark", &None, true, true), Ok(vec!["themes/dark".to_string()]));
    assert_eq!(resolve_template_paths("themes", "dark", &parent, false, false), Err(ThemeError::NoTemplates));
    assert_eq!(resolve_static_paths("themes", "dark", &parent, true, true), vec!["themes/base/static", "themes/dark/static"]);
    assert_eq!(resolve_static_paths("themes", "dark", &parent, false, true), vec!["themes/dark/static"]);
    assert!(resolve_static_paths("themes", "dark", &None, true, false).is_empty());
}

#[test]
fn theme_metadata_defaults() {
    let legacy = get_default_theme_metadata();
    assert_eq!(legacy.name, "default");
    assert_eq!(legacy.version, "1.0.0");
    assert_eq!(legacy.description, "Legacy template directory");
    assert_eq!(legacy.required_templates, vec!["base.html", "post.html", "index.html"]);
    let mut unnamed = legacy.clone();
    unnamed.name = String::new();
    assert_eq!(named_theme(unnamed, "dark").name, "dark");
    assert_eq!(named_theme(legacy.clone(), "dark").name, "default");
    let info = get_theme_info(&legacy);
    assert_eq!(info[0], ("name".to_string(), "default".to_string()));
    assert_eq!(info[1], ("version".to_string(), "1.0.0".to_string()));
    assert_eq!(info[2], ("author".to_string(), "".to_string()));
}

#[test]
fn required_templates_are_checked() {
    let mut tera = Tera::default();
    tera.add_raw_template("base.html", "x").unwrap();
    tera.add_raw_template("index.html", "y").unwrap();
    let required = get_default_theme_metadata().required_templates;
    assert_eq!(validate_required_templates(&tera, &required), vec!["post.html"]);
    tera.add_raw_template("post.html", "z").unwrap();
    assert!(validate_required_templates(&tera, &required).is_empty());
}

#[test]
fn related_posts_are_newest_of_same_category() {
    let posts = vec![
        meta("self", "dev", 500, false),
        meta("a", "dev", 100, false),
        meta("b", "chat", 900, false),
        meta("c", "dev", 300, false),
        meta("d", "dev", 200, false),
        meta("e", "dev", 400, false),
    ];
    let plugin = RelatedPostsPlugin::new();
    assert_eq!(plugin.name(), "related_posts");
    let related: Vec<&str> = plugin.related_posts("self", "dev", &posts).iter().map(|p| p.slug.as_str()).collect();
    assert_eq!(related, vec!["e", "c", "d"]);
    assert!(plugin.related_posts("b", "chat", &posts).is_empty());
}

#[test]
fn output_paths() {
    let generator = Generator::new(Tera::default(), "dist", false);
    let post = Post {
        slug: "hello".to_string(),
        category: "dev".to_string(),
        frontmatter: frontmatter("t", 0, vec![], false),
        content: String::new(),
        rendered_html: None,
    };
    assert_eq!(generator.get_post_path(&post), "dist/dev/hello/index.html");
    let page = Page {
        slug: "소개".to_string(),
        frontmatter: PageFrontmatter { title: "t".to_string(), description: None, draft: false },
        content: String::new(),
        rendered_html: None,
    };
    assert_eq!(generator.get_page_path(&page), "dist/소개/index.html");
    let encoding = Generator::new(Tera::default(), "out/", true);
    assert_eq!(encoding.get_page_path(&page), "out/%EC%86%8C%EA%B0%9C/index.html");
    assert_eq!(encoding.maybe_encode("a b"), "a%20b");
    assert_eq!(generator.maybe_encode("a b"), "a b");
    assert!(generator.get_tera().get_template_names().next().is_none());
}

#[test]
fn join_path_like_pathbuf() {
    for (base, name) in [("a", "b"), ("a/", "b"), ("", "b"), ("a", "/b"), ("a", ""), ("a/b", "c/d")] {
        let expected = std::path::PathBuf::from(base).join(name);
        assert_eq!(join_path(base, name), expected.to_string_lossy());
    }
}

#[test]
fn copied_assets() {
    for ext in ["png", "JPG", "jpeg", "gif", "webp", "svg", "ico", "bmp", "mp4", "webm", "mp3", "wav", "pdf", "zip", "tar", "gz"] {
        assert!(is_copied_asset(ext));
    }
    for ext in ["md", "MD", "txt", "html", ""] {
        assert!(!is_copied_asset(ext));
    }
}

#[test]
fn pagination_arithmetic() {
    assert_eq!(total_pages(0, 10), 1);
    assert_eq!(total_pages(10, 10), 1);
    assert_eq!(total_pages(11, 10), 2);
    assert_eq!(total_pages(usize::MAX, 1), usize::MAX);
    assert_eq!(page_bounds(1, 10, 25), (0, 10));
    assert_eq!(page_bounds(3, 10, 25), (20, 25));
    assert_eq!(page_bounds(4, 10, 25), (25, 25));
    assert_eq!(page_bounds(usize::MAX, usize::MAX, 5), (5, 5));
    assert_eq!(page_link_url("/dev/", 1), "/dev/");
    assert_eq!(page_link_url("/dev/", 12), "/dev/page/12");
    assert_eq!(listing_output_path("dist/dev", 1), "dist/dev/index.html");
    assert_eq!(listing_output_path("dist/tag/rust", 3), "dist/tag/rust/page/3/index.html");
}

#[test]
fn pagination_window() {
    let numbers = |current: usize, posts: usize| -> (Vec<usize>, Option<String>, Option<String>) {
        let context = build_pagination_context(current, posts, "/dev/", 10, 5);
        assert_eq!(context.has_prev, context.prev_url.is_some());
        assert_eq!(context.has_next, context.next_url.is_some());
        assert_eq!(context.prev_url, context.jump_prev_url);
        assert_eq!(context.next_url, context.jump_next_url);
        for link in &context.pages {
            assert_eq!(link.is_current, link.number == current);
            assert_eq!(link.url, page_link_url("/dev/", link.number));
        }
        (context.pages.iter().map(|p| p.number).collect(), context.jump_prev_url, context.jump_next_url)
    };
    assert_eq!(numbers(1, 30), (vec![1, 2, 3], None, None));
    assert_eq!(numbers(1, 100), (vec![1, 2, 3, 4, 5], None, Some("/dev/page/6".to_string())));
    assert_eq!(numbers(3, 100), (vec![1, 2, 3, 4, 5], None, Some("/dev/page/6".to_string())));
    assert_eq!(numbers(4, 100), (vec![2, 3, 4, 5, 6], Some("/dev/".to_string()), Some("/dev/page/7".to_string())));
    assert_eq!(numbers(5, 100), (vec![3, 4, 5, 6, 7], Some("/dev/page/2".to_string()), Some("/dev/page/8".to_string())));
    assert_eq!(numbers(8, 100), (vec![6, 7, 8, 9, 10], Some("/dev/page/5".to_string()), None));
    assert_eq!(numbers(10, 100), (vec![6, 7, 8, 9, 10], Some("/dev/page/5".to_string()), None));
    let context = build_pagination_context(2, 95, "/tag/x/", 10, 5);
    assert_eq!(context.total_pages, 10);
    assert_eq!(context.total_posts, 95);
    assert_eq!(context.first_url, "/tag/x/");
    assert_eq!(context.last_url, "/tag/x/page/10");
    assert!(build_pagination_context(1, 100, "/", 10, 0).pages.is_empty());
}

#[test]
fn content_types() {
    assert_eq!(get_content_type("dist/index.html"), "text/html");
    assert_eq!(get_content_type("a.css"), "text/css");
    assert_eq!(get_content_type("a.js"), "application/javascript");
    assert_eq!(get_content_type("a.png"), "image/png");
    assert_eq!(get_content_type("a.jpg"), "image/jpeg");
    assert_eq!(get_content_type("a.jpeg"), "image/jpeg");
    assert_eq!(get_content_type("a.svg"), "image/svg+xml");
    assert_eq!(get_content_type("a.PNG"), "application/octet-stream");
    assert_eq!(get_content_type(""), "application/octet-stream");
}

#[test]
fn served_files() {
    assert_eq!(served_file_path("/"), "dist/index.html");
    assert_eq!(served_file_path("/dev/"), "dist/dev/index.html");
    assert_eq!(served_file_path("/css/a.css"), "dist/css/a.css");
    assert_eq!(directory_index_path("dist/dev"), "dist/dev/index.html");
    assert_eq!(request_target("GET /dev/%ED%95%9C%EA%B8%80/ HTTP/1.1\r\nHost: x\r\n\r\n"), "/dev/한글/");
    assert_eq!(request_target("GET\r\nsecond line"), "/");
    assert_eq!(request_target(""), "/");
    assert_eq!(request_target("  GET   /a  "), "/a");
}

#[test]
fn rebuild_decisions() {
    let paths = |list: &[&str]| list.iter().map(|s| s.to_string()).collect::<Vec<String>>();
    assert!(should_rebuild(ChangeKind::Modify, &paths(&["content/posts/dev/a.md"])));
    assert!(should_rebuild(ChangeKind::Create, &paths(&[])));
    assert!(should_rebuild(ChangeKind::Remove, &paths(&["themes/x/base.html"])));
    assert!(!should_rebuild(ChangeKind::Other, &paths(&["content/posts/dev/a.md"])));
    assert!(!should_rebuild(ChangeKind::Modify, &paths(&["a.md", "/site/.build-cache/cache.json"])));
    assert!(!should_rebuild(ChangeKind::Modify, &paths(&["/site/dist/index.html"])));
}

#[test]
fn feed_item_and_channel() {
    let post = Post {
        slug: "hello".to_string(),
        category: "dev".to_string(),
        frontmatter: frontmatter("Tom & Jerry", 0, vec!["a", "b"], false),
        content: String::new(),
        rendered_html: None,
    };
    let categories = vec![Category {
        slug: "dev".to_string(),
        name: "Development".to_string(),
        description: String::new(),
        index: 0,
        hidden: false,
        icon: None,
        color: None,
        cover_image: None,
    }];
    let item = FeedGenerator::item_for(&post, "https://x.dev", "Me", &categories, "Thu, 1 Jan 1970 00:00:00 +0000", "<p>Hi</p>");
    assert_eq!(item.url, "https://x.dev/dev/hello");
    assert_eq!(item.category_name, "Development");
    assert_eq!(item.description, "Tom & Jerry");
    let xml = FeedGenerator::item_xml(&item);
    let expected = format!(
        r#"    <item>
        <title>{}</title>
        <link>{}</link>
        <dc:creator><![CDATA[{}]]></dc:creator>
        <pubDate>{}</pubDate>
        <category><![CDATA[{}]]></category>{}{}
        <guid isPermaLink="false">{}</guid>
        <description><![CDATA[{}]]></description>
        <content:encoded><![CDATA[{}]]></content:encoded>
    </item>"#,
        "Tom &amp; Jerry",
        "https://x.dev/dev/hello",
        "Me",
        "Thu, 1 Jan 1970 00:00:00 +0000",
        "Development",
        "\n",
        "        <category><![CDATA[a]]></category>\n        <category><![CDATA[b]]></category>",
        "https://x.dev/dev/hello",
        "Tom &amp; Jerry",
        "<p>Hi</p>"
    );
    assert_eq!(xml, expected);
    let untagged = FeedItem { tags: vec![], ..item.clone() };
    assert!(FeedGenerator::item_xml(&untagged).contains("]]></category>\n        <guid"));
    let unknown = FeedGenerator::item_for(&post, "https://x.dev", "Me", &[], "d", "c");
    assert_eq!(unknown.category_name, "dev");

    let channel = FeedGenerator::site_channel("T<", "D", "https://x.dev", "now");
    assert_eq!(channel, FeedChannel {
        title: "T<".to_string(),
        description: "D".to_string(),
        feed_url: "https://x.dev/feed.xml".to_string(),
        link: "https://x.dev".to_string(),
        last_build_date: "now".to_string(),
    });
    let feed = FeedGenerator::feed_xml(&channel, &vec!["ITEM1".to_string(), "ITEM2".to_string()]);
    assert!(feed.starts_with("<?xml version=\"1.0\" encoding=\"UTF-8\"?>\n<rss version=\"2.0\" xmlns:content="));
    assert!(feed.contains("<channel>\n    <title>T&lt;</title>\n    <description>D</description>\n    <language>ko-KR</language>\n    <atom:link href=\"https://x.dev/feed.xml\" rel=\"self\" type=\"application/rss+xml\" />\n    <link>https://x.dev</link>\n    <lastBuildDate>now</lastBuildDate>\n"));
    assert!(feed.ends_with("<sy:updateFrequency>1</sy:updateFrequency>\nITEM1\nITEM2\n</channel>\n</rss>\n"));
    let category = FeedGenerator::category_channel("Site", "https://x.dev", "dev", "Development", "", "now");
    assert_eq!(category.title, "Site - Development");
    assert_eq!(category.description, "Development posts from Site");
    assert_eq!(category.feed_url, "https://x.dev/dev/feed.xml");
    assert_eq!(category.link, "https://x.dev/dev/");
    assert_eq!(FeedGenerator::category_channel("S", "u", "dev", "D", "Tech", "now").description, "Tech");
    assert_eq!(FeedGenerator::post_file_name("%ED%95%9C%EA%B8%80"), "한글.md");
}

#[test]
fn new_post_scaffold() {
    assert_eq!(title_slug("Hello, World! 2025"), "hello-world-2025");
    assert_eq!(title_slug("한글 제목"), "한글-제목");
    assert_eq!(title_slug("a - b"), "a---b");
    assert_eq!(new_post_directory("dev"), "content/posts/dev");
    assert_eq!(new_post_file_name("dev", "hello"), "content/posts/dev/hello.md");
    assert_eq!(
        new_post_content("Hi", "2025-01-01T00:00:00+00:00", "dev"),
        "---\ntitle: \"Hi\"\ndate: 2025-01-01T00:00:00+00:00\ncategory: dev\ntags: []\ndraft: false\n---\n\nWrite your post here...\n"
    );
}

#[test]
fn theme_css_text() {
    assert_eq!(Renderer::color_to_css((0, 171, 255)), "#00abff");
    assert_eq!(Renderer::convert_css_to_variables(".a{color:#fff;background-color:#000}"), ".a{color: var(--syntax-fg); /* #fff;background-color: var(--syntax-bg); /* #000}");
    let light = ThemeColours { background: Some((253, 246, 227)), foreground: None };
    let dark = ThemeColours { background: None, foreground: Some((192, 197, 206)) };
    let css = Renderer::theme_css(&light, &dark, ".x { color:#c0c5ce; }");
    assert!(css.starts_with(":root {\n  color-scheme: light dark;\n}\n\n/* Light theme */\n@media (prefers-color-scheme: light) {\n  :root {\n    --syntax-bg: #fdf6e3;\n    --syntax-fg: #000000;\n  }\n}\n\n/* Dark theme */\n@media (prefers-color-scheme: dark) {\n  :root {\n    --syntax-bg: #ffffff;\n    --syntax-fg: #c0c5ce;\n  }\n}\n\n.x { color: var(--syntax-fg); /* #c0c5ce; }\n.syntax-highlight {\n"));
    assert!(css.ends_with("line-height: 1.5;\n}\n"));
    let generated = Renderer::new().generate_theme_css().unwrap();
    assert!(generated.contains("--syntax-bg: #fdf6e3;"));
    assert!(generated.contains("--syntax-bg: #2b303b;"));
    assert!(generated.contains(".syntax-highlight code {"));
}

fn slugs(posts: &[&PostMetadata]) -> Vec<String> {
    posts.iter().map(|post| post.slug.clone()).collect()
}

#[test]
fn site_feed_lists_the_ten_newest_without_drafts() {
    assert_eq!(FEED_LIMIT, 10);
    let mut metadata = MetadataCache::new();
    assert!(FeedGenerator::site_feed_posts(&metadata).is_empty());
    for n in 0..12i64 {
        let slug = format!("n{}", n);
        // The two newest posts but one are drafts.
        metadata.upsert_post(slug.clone(), "dev".to_string(), frontmatter(&slug, 1_700_000_000 + n, vec![], n == 10 || n == 9));
    }
    let listed = FeedGenerator::site_feed_posts(&metadata);
    // Of the ten newest (n11 down to n2) the drafts n10 and n9 are left out.
    assert_eq!(slugs(&listed), vec!["n11", "n8", "n7", "n6", "n5", "n4", "n3", "n2"]);
}

#[test]
fn category_feed_lists_its_ten_newest_published_posts() {
    let mut metadata = MetadataCache::new();
    for n in 0..13i64 {
        let slug = format!("n{}", n);
        metadata.upsert_post(slug.clone(), "dev".to_string(), frontmatter(&slug, 1_700_000_000 + n, vec![], n == 12));
    }
    metadata.upsert_post("other".to_string(), "life".to_string(), frontmatter("other", 1_800_000_000, vec![], false));
    let listed = FeedGenerator::category_feed_posts(&metadata, "dev");
    // The draft n12 is left out before the ten newest are taken.
    assert_eq!(slugs(&listed), vec!["n11", "n10", "n9", "n8", "n7", "n6", "n5", "n4", "n3", "n2"]);
    assert_eq!(slugs(&FeedGenerator::category_feed_posts(&metadata, "life")), vec!["other"]);
    assert!(FeedGenerator::category_feed_posts(&metadata, "none").is_empty());
}

#[test]
fn first_posts_takes_a_prefix() {
    let a = meta("a", "dev", 1, false);
    let b = meta("b", "dev", 2, false);
    let posts = vec![&a, &b];
    assert_eq!(slugs(&first_posts(&posts, 0)), Vec::<String>::new());
    assert_eq!(slugs(&first_posts(&posts, 1)), vec!["a"]);
    assert_eq!(slugs(&first_posts(&posts, 5)), vec!["a", "b"]);
}
