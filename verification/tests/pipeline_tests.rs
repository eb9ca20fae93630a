use ssdocs::cache::BuildCache;
use ssdocs::metadata::MetadataCache;
use ssdocs::parallel::{BuildResult, SkipReason};
use ssdocs::parser::Parser;
use ssdocs::pipeline::{aggregate_results, failure_message, record_result, status_line, BuildSummary, Progress, Unread};
use ssdocs::renderer::Renderer;
use ssdocs::run::{build_post, build_posts, run_build, PostWork};
use ssdocs::types::Post;
use ssdocs::types::{Frontmatter, PostDate};
use tera::Tera;

const TEMPLATES: &str = "template-digest";

fn frontmatter_of(text: &str) -> Frontmatter {
    Frontmatter {
        title: "T".to_string(),
        date: PostDate { seconds: 1_700_000_000, nanos: 0 },
        category: "dev".to_string(),
        tags: vec!["rust".to_string()],
        featured_image: None,
        description: None,
        draft: text.contains("draft: true"),
    }
}

fn build_one(path: &str, source: Result<&str, &str>, cache: &BuildCache, use_cache: bool, renderer: &Renderer, tera: &Tera) -> BuildResult {
    let bytes = source.map(|s| s.as_bytes().to_vec()).map_err(|e| e.to_string());
    let hashed = match Unread::new(path, TEMPLATES, use_cache).source_read(bytes) {
        Progress::Continue(hashed) => hashed,
        Progress::Done(result) => return result,
    };
    let hashed = match hashed.cache_checked(cache) {
        Progress::Continue(stale) => stale,
        Progress::Done(result) => return result,
    };
    let content = source.unwrap();
    let post = match Parser::split_frontmatter(content) {
        Ok((text, _)) => Parser::parse_file(path, content, frontmatter_of(text)).map_err(|e| e.message()),
        Err(e) => Err(e.message()),
    };
    let parsed = match hashed.parsed(post, &None) {
        Progress::Continue(parsed) => parsed,
        Progress::Done(result) => return result,
    };
    let expanded = if parsed.post.content.contains("{{ broken }}") {
        Err("unknown shortcode".to_string())
    } else {
        Ok(parsed.post.content.clone())
    };
    let rendered = match parsed.shortcodes_expanded(expanded, renderer, tera, &None) {
        Progress::Continue(rendered) => rendered,
        Progress::Done(result) => return result,
    };
    assert!(rendered.post.rendered_html.is_some());
    assert!(rendered.plugin_data.is_empty());
    let output = if rendered.post.slug == "unwritable" {
        Err("disk full".to_string())
    } else {
        Ok(format!("dist/{}/{}/index.html", rendered.post.category, rendered.post.slug))
    };
    rendered.page_written(output)
}

fn run(files: &[(&str, &str)], cache: &mut BuildCache, metadata: &mut MetadataCache, use_cache: bool) -> BuildSummary {
    let renderer = Renderer::new();
    let tera = Tera::default();
    let results: Vec<BuildResult> =
        files.iter().map(|(path, content)| build_one(path, Ok(content), cache, use_cache, &renderer, &tera)).collect();
    aggregate_results(results, cache, metadata, "2025-01-01T00:00:00+00:00")
}

fn post(n: usize, body: &str, draft: bool) -> (String, String) {
    (format!("content/posts/dev/post-{}.md", n), format!("---\ntitle: P{}\ndraft: {}\n---\n{}\n", n, draft, body))
}

#[test]
fn second_run_over_unchanged_content_skips_everything() {
    let owned: Vec<(String, String)> = (0..4).map(|n| post(n, "Body", false)).collect();
    let files: Vec<(&str, &str)> = owned.iter().map(|(p, c)| (p.as_str(), c.as_str())).collect();
    let mut cache = BuildCache::new();
    let mut metadata = MetadataCache::new();
    let first = run(&files, &mut cache, &mut metadata, true);
    assert_eq!((first.built, first.cached, first.drafts, first.errors.len()), (4, 0, 0, 0));
    let second = run(&files, &mut cache, &mut metadata, true);
    assert_eq!((second.built, second.cached, second.drafts, second.errors.len()), (0, 4, 0, 0));
    assert_eq!(cache.len(), 4);
    assert_eq!(metadata.posts.len(), 4);
}

#[test]
fn unchanged_modified_and_draft() {
    let mut owned: Vec<(String, String)> = (0..4).map(|n| post(n, "Body", false)).collect();
    owned.push(post(4, "Draft body", true));
    let mut cache = BuildCache::new();
    let mut metadata = MetadataCache::new();
    {
        let files: Vec<(&str, &str)> = owned.iter().map(|(p, c)| (p.as_str(), c.as_str())).collect();
        let first = run(&files, &mut cache, &mut metadata, true);
        assert_eq!((first.built, first.cached, first.drafts), (4, 0, 1));
    }
    owned[3] = post(3, "Changed body", false);
    let files: Vec<(&str, &str)> = owned.iter().map(|(p, c)| (p.as_str(), c.as_str())).collect();
    let second = run(&files, &mut cache, &mut metadata, true);
    assert_eq!(second.built, 1);
    assert_eq!(second.cached, 3);
    assert_eq!(second.drafts, 1);
    assert!(!second.failed());
    assert_eq!(cache.len(), 4);
    assert!(cache.get("content/posts/dev/post-4.md").is_none());
}

#[test]
fn template_change_invalidates_every_entry() {
    let mut cache = BuildCache::new();
    cache.record_entry("a.md", ssdocs::cache::hash_file(b"A"), "old-templates".to_string(), "o".to_string(), "t".to_string());
    let renderer = Renderer::new();
    let tera = Tera::default();
    let result = build_one("content/posts/dev/a.md", Ok("---\n---\nA"), &cache, true, &renderer, &tera);
    assert!(matches!(result, BuildResult::Success { .. }));
}

#[test]
fn without_cache_nothing_is_skipped_as_cached() {
    let owned: Vec<(String, String)> = (0..2).map(|n| post(n, "Body", false)).collect();
    let files: Vec<(&str, &str)> = owned.iter().map(|(p, c)| (p.as_str(), c.as_str())).collect();
    let mut cache = BuildCache::new();
    let mut metadata = MetadataCache::new();
    run(&files, &mut cache, &mut metadata, false);
    let second = run(&files, &mut cache, &mut metadata, false);
    assert_eq!((second.built, second.cached), (2, 0));
}

#[test]
fn each_step_can_fail_and_others_go_on() {
    let renderer = Renderer::new();
    let tera = Tera::default();
    let cache = BuildCache::new();
    let results = vec![
        build_one("content/posts/dev/a.md", Err("permission denied"), &cache, true, &renderer, &tera),
        build_one("content/posts/dev/b.md", Ok("no frontmatter"), &cache, true, &renderer, &tera),
        build_one("content/posts/dev/c.md", Ok("---\n---\n{{ broken }}"), &cache, true, &renderer, &tera),
        build_one("content/posts/dev/unwritable.md", Ok("---\n---\nBody"), &cache, true, &renderer, &tera),
        build_one("content/posts/dev/ok.md", Ok("---\n---\nBody"), &cache, true, &renderer, &tera),
    ];
    let messages: Vec<String> = results
        .iter()
        .map(|r| match r {
            BuildResult::Error { error, .. } => error.clone(),
            BuildResult::Success { output_path, .. } => output_path.clone(),
            BuildResult::Skipped { .. } => "skipped".to_string(),
        })
        .collect();
    assert_eq!(messages[0], "permission denied");
    assert!(messages[1].starts_with("Invalid frontmatter format"));
    assert_eq!(messages[2], "unknown shortcode");
    assert_eq!(messages[3], "disk full");
    assert_eq!(messages[4], "dist/dev/ok/index.html");
    let mut cache = BuildCache::new();
    let mut metadata = MetadataCache::new();
    let summary = aggregate_results(results, &mut cache, &mut metadata, "now");
    assert!(summary.failed());
    assert_eq!(summary.built, 1);
    assert_eq!(summary.errors.len(), 4);
    assert_eq!(summary.errors[0], ("content/posts/dev/a.md".to_string(), "permission denied".to_string()));
    assert_eq!(failure_message(&summary), "4 posts failed to build");
    assert_eq!(cache.len(), 1);
    assert_eq!(cache.get("content/posts/dev/ok.md").unwrap().built_at, "now");
    assert_eq!(metadata.posts.len(), 1);
}

#[test]
fn status_lines() {
    let skipped = |reason| BuildResult::Skipped { path: "a.md".to_string(), reason };
    assert_eq!(status_line(&skipped(SkipReason::Cached)), "⏭  Skipped (unchanged): a.md");
    assert_eq!(status_line(&skipped(SkipReason::Draft)), "   ⚠  Draft - skipping: a.md");
    let error = BuildResult::Error { path: "a.md".to_string(), error: "boom".to_string() };
    assert_eq!(status_line(&error), "❌ Error building a.md: boom");
    let built = BuildResult::Success {
        path: "a.md".to_string(),
        slug: "a".to_string(),
        category: "dev".to_string(),
        frontmatter: frontmatter_of(""),
        file_hash: "h".to_string(),
        template_hash: "t".to_string(),
        output_path: "o".to_string(),
    };
    assert_eq!(status_line(&built), "🔨 Built: a.md");
}

#[test]
fn outcomes_are_taken_in_one_by_one() {
    let mut cache = BuildCache::new();
    let mut metadata = MetadataCache::new();
    let mut summary = BuildSummary::new();
    assert_eq!((summary.built, summary.cached, summary.drafts, summary.errors.len()), (0, 0, 0, 0));
    let built = BuildResult::Success {
        path: "a.md".to_string(),
        slug: "a".to_string(),
        category: "dev".to_string(),
        frontmatter: frontmatter_of(""),
        file_hash: "h".to_string(),
        template_hash: "t".to_string(),
        output_path: "dist/dev/a/index.html".to_string(),
    };
    record_result(built, &mut cache, &mut metadata, "2025-01-01T00:00:00+00:00", &mut summary);
    assert_eq!(cache.len(), 1);
    assert_eq!(cache.get("a.md").unwrap().built_at, "2025-01-01T00:00:00+00:00");
    assert_eq!(metadata.posts.len(), 1);
    assert_eq!(metadata.posts[0].slug, "a");
    record_result(BuildResult::Skipped { path: "b.md".to_string(), reason: SkipReason::Cached }, &mut cache, &mut metadata, "x", &mut summary);
    record_result(BuildResult::Skipped { path: "c.md".to_string(), reason: SkipReason::Draft }, &mut cache, &mut metadata, "x", &mut summary);
    record_result(BuildResult::Error { path: "d.md".to_string(), error: "bad".to_string() }, &mut cache, &mut metadata, "x", &mut summary);
    assert_eq!((summary.built, summary.cached, summary.drafts), (1, 1, 1));
    assert_eq!(summary.errors, vec![("d.md".to_string(), "bad".to_string())]);
    assert_eq!(cache.len(), 1);
    assert_eq!(metadata.posts.len(), 1);
    assert!(summary.failed());
}

fn work(n: usize, body: &str, draft: bool) -> PostWork {
    let (path, content) = post(n, body, draft);
    let mut frontmatter = frontmatter_of(&content);
    frontmatter.title = format!("P{}", n);
    PostWork {
        path,
        source: Ok(content.into_bytes()),
        post: Ok(Post {
            slug: format!("post-{}", n),
            category: "dev".to_string(),
            frontmatter,
            content: format!("{}\n", body),
            rendered_html: None,
        }),
        expanded: Ok(format!("{}\n", body)),
        written: Ok(format!("dist/dev/post-{}/index.html", n)),
    }
}

#[test]
fn incremental_run_builds_only_what_changed() {
    let renderer = Renderer::new();
    let tera = Tera::default();
    let mut cache = BuildCache::new();
    let mut metadata = MetadataCache::new();
    let first: Vec<PostWork> = vec![work(0, "A", false), work(1, "B", false), work(2, "C", false), work(3, "D", false), work(4, "E", true)];
    let summary = run_build(first, TEMPLATES, true, &mut cache, &mut metadata, "2025-01-01T00:00:00+00:00", &renderer, &tera);
    assert_eq!((summary.built, summary.cached, summary.drafts, summary.errors.len()), (4, 0, 1, 0));
    assert_eq!(cache.len(), 4);
    let kept_entry = cache.get("content/posts/dev/post-0.md").unwrap().clone();
    let old_entry = cache.get("content/posts/dev/post-3.md").unwrap().clone();

    let second: Vec<PostWork> = vec![work(0, "A", false), work(1, "B", false), work(2, "C", false), work(3, "D changed", false), work(4, "E", true)];
    let summary = run_build(second, TEMPLATES, true, &mut cache, &mut metadata, "2025-02-02T00:00:00+00:00", &renderer, &tera);
    assert_eq!((summary.built, summary.cached, summary.drafts, summary.errors.len()), (1, 3, 1, 0));
    assert!(!summary.failed());
    assert_eq!(cache.len(), 4);
    assert_eq!(cache.get("content/posts/dev/post-0.md").unwrap(), &kept_entry);
    let new_entry = cache.get("content/posts/dev/post-3.md").unwrap();
    assert_ne!(new_entry.file_hash, old_entry.file_hash);
    assert_eq!(new_entry.file_hash, ssdocs::cache::hash_file(post(3, "D changed", false).1.as_bytes()));
    assert_eq!(new_entry.template_hash, TEMPLATES);
    assert_eq!(new_entry.built_at, "2025-02-02T00:00:00+00:00");
    assert!(cache.get("content/posts/dev/post-4.md").is_none());
    assert_eq!(metadata.posts.len(), 4);
}

#[test]
fn build_post_stops_at_the_first_failure() {
    let renderer = Renderer::new();
    let tera = Tera::default();
    let cache = BuildCache::new();
    let mut unread = work(0, "A", false);
    unread.source = Err("permission denied".to_string());
    unread.post = Err("not reached".to_string());
    assert_eq!(
        build_post(unread, TEMPLATES, true, &cache, &renderer, &tera),
        BuildResult::Error { path: "content/posts/dev/post-0.md".to_string(), error: "permission denied".to_string() }
    );
    let mut unparsed = work(1, "B", false);
    unparsed.post = Err("bad frontmatter".to_string());
    let mut unexpanded = work(2, "C", false);
    unexpanded.expanded = Err("unknown shortcode".to_string());
    let mut unwritten = work(3, "D", false);
    unwritten.written = Err("disk full".to_string());
    let results = build_posts(vec![unparsed, unexpanded, unwritten, work(4, "E", true), work(5, "F", false)], TEMPLATES, false, &cache, &renderer, &tera);
    let errors: Vec<String> = results
        .iter()
        .map(|result| match result {
            BuildResult::Error { error, .. } => error.clone(),
            BuildResult::Skipped { .. } => "skipped".to_string(),
            BuildResult::Success { output_path, .. } => output_path.clone(),
        })
        .collect();
    assert_eq!(errors, vec!["bad frontmatter", "unknown shortcode", "disk full", "skipped", "dist/dev/post-5/index.html"]);
    assert_eq!(results[3], BuildResult::Skipped { path: "content/posts/dev/post-4.md".to_string(), reason: SkipReason::Draft });
}
