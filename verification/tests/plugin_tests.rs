use ssdocs::config::SsgConfig;
use ssdocs::metadata::MetadataCache;
use ssdocs::plugin::{Plugin, PluginContext, PluginManager};
use ssdocs::types::{Frontmatter, Post, PostDate};

struct TestPlugin {
    name: String,
}

impl Plugin for TestPlugin {
    fn name(&self) -> &str {
        &self.name
    }

    fn template_context_post(&self, _post: &Post, _ctx: &PluginContext) -> Result<Vec<(String, serde_json::Value)>, String> {
        Ok(vec![("test_value".to_string(), serde_json::Value::String(self.name.clone()))])
    }
}

struct Shouting;

impl Plugin for Shouting {
    fn name(&self) -> &str {
        "shouting"
    }

    fn on_post_parsed(&self, post: &mut Post, _ctx: &PluginContext) -> Result<(), String> {
        post.content = post.content.to_uppercase();
        Ok(())
    }

    fn on_post_rendered(&self, _post: &mut Post, html: &mut String, _ctx: &PluginContext) -> Result<(), String> {
        html.push('!');
        Ok(())
    }
}

struct Failing;

impl Plugin for Failing {
    fn name(&self) -> &str {
        "failing"
    }

    fn init(&mut self, _config: &SsgConfig) -> Result<(), String> {
        Err("cannot start".to_string())
    }

    fn on_post_parsed(&self, _post: &mut Post, _ctx: &PluginContext) -> Result<(), String> {
        Err("cannot read".to_string())
    }
}

fn post() -> Post {
    Post {
        slug: "a".to_string(),
        category: "dev".to_string(),
        frontmatter: Frontmatter {
            title: "A".to_string(),
            date: PostDate { seconds: 0, nanos: 0 },
            category: "dev".to_string(),
            tags: vec![],
            featured_image: None,
            description: None,
            draft: false,
        },
        content: "body".to_string(),
        rendered_html: None,
    }
}

#[test]
fn test_plugin_registration() {
    let mut manager = PluginManager::new();
    let plugin = Box::new(TestPlugin { name: "test".to_string() });

    manager.register(plugin);
    assert_eq!(manager.list_plugins(), vec!["test"]);
}

#[test]
fn hooks_run_in_order_and_stop_at_the_first_failure() {
    let config = SsgConfig::default();
    let metadata = MetadataCache::new();
    let ctx = PluginContext { config: &config, metadata: &metadata };

    let mut manager = PluginManager::new();
    let mut untouched = post();
    assert_eq!(manager.on_post_parsed(&mut untouched, &ctx), Ok(()));
    assert_eq!(untouched, post());
    assert_eq!(manager.template_context_post(&untouched, &ctx), Ok(vec![]));
    assert_eq!(manager.init_all(&config), Ok(()));

    manager.register(Box::new(TestPlugin { name: "one".to_string() }));
    manager.register(Box::new(Shouting));
    manager.register(Box::new(TestPlugin { name: "two".to_string() }));
    assert_eq!(manager.init_all(&config), Ok(()));
    assert_eq!(manager.list_plugins(), vec!["one", "shouting", "two"]);

    let mut changed = post();
    let mut html = String::from("<p>body</p>");
    assert_eq!(manager.on_post_parsed(&mut changed, &ctx), Ok(()));
    assert_eq!(changed.content, "BODY");
    assert_eq!(manager.on_post_rendered(&mut changed, &mut html, &ctx), Ok(()));
    assert_eq!(html, "<p>body</p>!");
    let data = manager.template_context_post(&changed, &ctx).unwrap();
    assert_eq!(data.len(), 2);
    assert_eq!(data[0].1, serde_json::Value::String("one".to_string()));
    assert_eq!(data[1].1, serde_json::Value::String("two".to_string()));
    assert!(manager.template_context_index(&ctx).unwrap().is_empty());

    manager.register(Box::new(Failing));
    manager.register(Box::new(Shouting));
    assert_eq!(manager.init_all(&config), Err("cannot start".to_string()));
    assert_eq!(manager.list_plugins().len(), 5);
    let mut stopped = post();
    assert_eq!(manager.on_post_parsed(&mut stopped, &ctx), Err("cannot read".to_string()));
    assert_eq!(stopped.content, "BODY");
}

#[test]
fn hooks_take_part_in_the_build_of_a_post() {
    let config = SsgConfig::default();
    let metadata = MetadataCache::new();
    let mut manager = PluginManager::new();
    manager.register(Box::new(Shouting));
    manager.register(Box::new(TestPlugin { name: "one".to_string() }));
    let renderer = ssdocs::renderer::Renderer::new();
    let tera = tera::Tera::default();
    let cache = ssdocs::cache::BuildCache::new();

    let build = |manager: &PluginManager| {
        let hooks = Some(ssdocs::pipeline::Hooks { plugins: manager, context: PluginContext { config: &config, metadata: &metadata } });
        let hashed = match ssdocs::pipeline::Unread::new("content/posts/dev/a.md", "t", false).source_read(Ok(b"x".to_vec())) {
            ssdocs::pipeline::Progress::Continue(hashed) => hashed,
            ssdocs::pipeline::Progress::Done(_) => panic!("read"),
        };
        let hashed = match hashed.cache_checked(&cache) {
            ssdocs::pipeline::Progress::Continue(stale) => stale,
            ssdocs::pipeline::Progress::Done(_) => panic!("nothing is cached"),
        };
        let parsed = match hashed.parsed(Ok(post()), &hooks) {
            ssdocs::pipeline::Progress::Continue(parsed) => parsed,
            ssdocs::pipeline::Progress::Done(result) => return result,
        };
        let markdown = parsed.post.content.clone();
        match parsed.shortcodes_expanded(Ok(markdown), &renderer, &tera, &hooks) {
            ssdocs::pipeline::Progress::Continue(rendered) => {
                assert_eq!(rendered.post.rendered_html.as_deref(), Some("<p>BODY</p>\n!"));
                assert_eq!(rendered.plugin_data.len(), 1);
                rendered.page_written(Ok("out".to_string()))
            }
            ssdocs::pipeline::Progress::Done(result) => result,
        }
    };
    assert!(matches!(build(&manager), ssdocs::parallel::BuildResult::Success { .. }));
    manager.register(Box::new(Failing));
    match build(&manager) {
        ssdocs::parallel::BuildResult::Error { path, error } => {
            assert_eq!(path, "content/posts/dev/a.md");
            assert_eq!(error, "cannot read");
        }
        _ => panic!("a failing hook ends the build of the post"),
    }
}

struct Bare;

impl Plugin for Bare {
    fn name(&self) -> &str {
        "bare"
    }
}

#[test]
fn default_hooks_succeed_and_change_nothing() {
    let config = SsgConfig::default();
    let metadata = MetadataCache::new();
    let ctx = PluginContext { config: &config, metadata: &metadata };
    let mut plugin = Bare;
    assert_eq!(plugin.init(&config), Ok(()));
    let mut subject = post();
    let mut html = String::from("<p>x</p>");
    assert_eq!(plugin.on_post_parsed(&mut subject, &ctx), Ok(()));
    assert_eq!(plugin.on_post_rendered(&mut subject, &mut html, &ctx), Ok(()));
    assert_eq!(subject, post());
    assert_eq!(html, "<p>x</p>");
    assert_eq!(plugin.template_context_post(&subject, &ctx), Ok(vec![]));
    assert_eq!(plugin.template_context_index(&ctx), Ok(vec![]));
    let page = ssdocs::parser::Page {
        slug: "about".to_string(),
        frontmatter: ssdocs::parser::PageFrontmatter { title: "About".to_string(), description: None, draft: false },
        content: String::new(),
        rendered_html: None,
    };
    assert_eq!(plugin.template_context_page(&page, &ctx), Ok(vec![]));
}
