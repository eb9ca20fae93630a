use ssdocs::parser::{PageFrontmatter, ParseError, Parser};
use ssdocs::types::{Frontmatter, PostDate};

fn frontmatter() -> Frontmatter {
    Frontmatter {
        title: "T".to_string(),
        date: PostDate { seconds: 1_700_000_000, nanos: 0 },
        category: "dev".to_string(),
        tags: vec![],
        featured_image: None,
        description: None,
        draft: false,
    }
}

#[test]
fn test_split_frontmatter() {
    let content = r#"---
title: Test Post
---
Content here"#;

    let (fm, content) = Parser::split_frontmatter(content).unwrap();
    assert!(fm.contains("title: Test Post"));
    assert_eq!(content, "Content here");
}

#[test]
fn test_split_frontmatter_multiline() {
    let content = r#"---
title: Test
date: 2025-11-11T10:00:00Z
---
# Heading

Content with multiple lines"#;

    let (fm, content) = Parser::split_frontmatter(content).unwrap();
    assert!(fm.contains("title: Test"));
    assert!(content.starts_with("# Heading"));
}

#[test]
fn split_frontmatter_needs_two_fences() {
    assert_eq!(Parser::split_frontmatter("no fences"), Err(ParseError::InvalidFrontmatter));
    assert_eq!(Parser::split_frontmatter("---\ntitle: x\n"), Err(ParseError::InvalidFrontmatter));
    assert_eq!(Parser::split_frontmatter("------"), Ok(("", "")));
    assert_eq!(Parser::split_frontmatter("한---\n제목: 글 \n---\n본문\n"), Ok(("제목: 글", "본문")));
    assert_eq!(Parser::split_frontmatter("--- a --- b --- c"), Ok(("a", "b --- c")));
}

#[test]
fn test_path_to_slug() {
    let path = "content/posts/dev/hello-world.md";
    let slug = Parser::path_to_slug(path).unwrap();
    assert_eq!(slug, "hello-world");
}

#[test]
fn path_to_slug_follows_file_stem() {
    assert_eq!(Parser::path_to_slug("a/b.tar.gz").unwrap(), "b.tar");
    assert_eq!(Parser::path_to_slug("a/.hidden").unwrap(), ".hidden");
    assert_eq!(Parser::path_to_slug("a/name").unwrap(), "name");
    assert_eq!(Parser::path_to_slug("a/dir/").unwrap(), "dir");
    assert_eq!(Parser::path_to_slug("a/dir/.").unwrap(), "dir");
    assert_eq!(Parser::path_to_slug("a/.."), Err(ParseError::InvalidPath));
    assert_eq!(Parser::path_to_slug("/"), Err(ParseError::InvalidPath));
    assert_eq!(Parser::path_to_slug(""), Err(ParseError::InvalidPath));
    for path in ["a/b.tar.gz", "a/.hidden", "a/name", "a/dir/", "a/dir/.", "x.md", "a/..", "/", ""] {
        let expected = std::path::Path::new(path).file_stem().and_then(|s| s.to_str()).map(|s| s.to_string());
        assert_eq!(Parser::path_to_slug(path).ok(), expected);
    }
}

#[test]
fn extract_category_finds_directory_below_posts() {
    assert_eq!(Parser::extract_category("content/posts/dev/hello.md").unwrap(), "dev");
    assert_eq!(Parser::extract_category("posts/chat/x/y.md").unwrap(), "chat");
    assert_eq!(Parser::extract_category("./content//posts/./dev/a.md").unwrap(), "dev");
    assert_eq!(Parser::extract_category("content/posts"), Err(ParseError::NoCategory));
    assert_eq!(Parser::extract_category("content/pages/about.md"), Err(ParseError::NoCategory));
    assert_eq!(Parser::extract_category("posts/../posts/dev/a.md").unwrap(), "dev");
}

#[test]
fn parse_file_assembles_post() {
    let post = Parser::parse_file("content/posts/dev/한글.md", "---\ntitle: T\n---\nBody\n", frontmatter()).unwrap();
    assert_eq!(post.slug, "%ED%95%9C%EA%B8%80");
    assert_eq!(post.category, "dev");
    assert_eq!(post.content, "Body");
    assert_eq!(post.frontmatter, frontmatter());
    assert_eq!(post.rendered_html, None);
    assert_eq!(Parser::parse_file("content/posts/dev/a.md", "Body", frontmatter()), Err(ParseError::InvalidFrontmatter));
    assert_eq!(Parser::parse_file("content/pages/a.md", "---\n---\nBody", frontmatter()), Err(ParseError::NoCategory));
    assert_eq!(Parser::parse_file("content/posts/dev/..", "---\n---\nBody", frontmatter()), Err(ParseError::InvalidPath));
}

#[test]
fn parse_page_with_and_without_frontmatter() {
    let plain = Parser::parse_page_file("content/pages/about-me.md", "Hello", None).unwrap();
    assert_eq!(plain.slug, "about-me");
    assert_eq!(plain.frontmatter.title, "about me");
    assert_eq!(plain.content, "Hello");
    assert!(!plain.frontmatter.draft);
    let given = PageFrontmatter { title: "About".to_string(), description: None, draft: true };
    let fenced = Parser::parse_page_file("content/pages/about.md", "\n ---\ntitle: About\n---\nHello\n", Some(given.clone())).unwrap();
    assert_eq!(fenced.frontmatter, given);
    assert_eq!(fenced.content, "Hello");
    assert_eq!(Parser::parse_page_file("content/pages/about.md", "---\nbroken", Some(given)), Err(ParseError::InvalidFrontmatter));
    assert!(Parser::has_frontmatter("  \n---\n"));
    assert!(!Parser::has_frontmatter("text ---"));
}

#[test]
fn parse_error_messages() {
    assert!(ParseError::InvalidFrontmatter.message().starts_with("Invalid frontmatter format"));
    assert_eq!(ParseError::InvalidPath.message(), "Invalid file path");
    assert!(ParseError::NoCategory.message().starts_with("Could not extract category from path"));
}
