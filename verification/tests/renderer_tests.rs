use ssdocs::renderer::Renderer;
use tera::Tera;

fn engine_with(name: &str, body: &str) -> Tera {
    let mut tera = Tera::default();
    tera.add_raw_template(name, body).unwrap();
    tera
}

#[test]
fn test_render_markdown() {
    let renderer = Renderer::new();
    let md = "# Hello\n\nThis is **bold**.";
    let html = renderer.render_markdown(md);

    assert!(html.contains("<h1>"));
    assert!(html.contains("Hello"));
    assert!(html.contains("<strong>bold</strong>"));
}

#[test]
fn test_render_markdown_with_code() {
    let renderer = Renderer::new();
    let md = "```rust\nfn main() {}\n```";
    let html = renderer.render_markdown(md);

    assert!(html.contains("<code"));
    assert!(html.contains(">fn</span>"));
    assert!(html.contains(">main</span>"));
}

#[test]
fn test_render_markdown_with_links() {
    let renderer = Renderer::new();
    let md = "[Click here](https://example.com)";
    let html = renderer.render_markdown(md);

    assert!(html.contains("<a href=\"https://example.com\">"));
    assert!(html.contains("Click here"));
}

#[test]
fn resolve_path_literals() {
    assert_eq!(Renderer::resolve_path("./x.png", "posts/dev"), "/posts/dev/x.png");
    assert_eq!(Renderer::resolve_path("../x.png", "posts/dev"), "/posts/x.png");
    assert_eq!(Renderer::resolve_path("https://x/y", "posts/dev"), "https://x/y");
    assert_eq!(Renderer::resolve_path("/abs/x", "posts/dev"), "/abs/x");
}

#[test]
fn resolve_path_edge_cases() {
    assert_eq!(Renderer::resolve_path("x.png", "posts/dev"), "/posts/dev/x.png");
    assert_eq!(Renderer::resolve_path("  x.png ", "/posts/dev/"), "/posts/dev/x.png");
    assert_eq!(Renderer::resolve_path("../../x.png", "posts/dev"), "/x.png");
    assert_eq!(Renderer::resolve_path("../../../x.png", "posts/dev"), "/x.png");
    assert_eq!(Renderer::resolve_path("../a/b.png", "posts/dev/deep"), "/posts/dev/a/b.png");
    assert_eq!(Renderer::resolve_path("../x.png", ""), "/x.png");
    assert_eq!(Renderer::resolve_path("#top", "posts/dev"), "#top");
    assert_eq!(Renderer::resolve_path("//cdn/x.js", "posts/dev"), "//cdn/x.js");
    assert_eq!(Renderer::resolve_path("data:image/png;base64,AA", "p"), "data:image/png;base64,AA");
    assert_eq!(Renderer::resolve_path("mailto:a@b.c", "p"), "mailto:a@b.c");
    assert_eq!(Renderer::resolve_path("http://x/y", "p"), "http://x/y");
}

#[test]
fn nested_same_tag_pairs_with_outer_closer() {
    let tera = engine_with("components/a.html", "[{{ href | safe }}|{{ content | safe }}]");
    let html = "<div><a href=\"x\"><a href=\"y\">Z</a></a></div>";
    let out = Renderer::replace_tag(html, "a", &tera, "components/a.html", "posts/dev");
    assert_eq!(out, "<div>[/posts/dev/x|<a href=\"y\">Z</a>]</div>");
}

#[test]
fn unregistered_components_leave_html_unchanged() {
    let tera = Tera::default();
    let html = "<p>One <a href=\"x\">two</a> <img src=\"a.png\" /></p>";
    assert_eq!(Renderer::post_process_components(html, &tera, "posts/dev"), html);
}

#[test]
fn failing_template_leaves_element_untouched() {
    let tera = engine_with("components/a.html", "{{ missing_variable }}");
    let html = "<p><a href=\"x\">two</a> tail</p>";
    let out = Renderer::replace_tag(html, "a", &tera, "components/a.html", "posts/dev");
    assert_eq!(out, html);
}

#[test]
fn quoted_angle_bracket_does_not_end_tag() {
    let tera = engine_with("components/img.html", "<figure>{{ alt }}|{{ src }}</figure>");
    let html = "<img alt=\"a > b\" src=\"./p.png\" />after";
    let out = Renderer::post_process_components(html, &tera, "posts/dev");
    assert_eq!(out, "<figure>a &gt; b|&#x2F;posts&#x2F;dev&#x2F;p.png</figure>after");
}

#[test]
fn extract_attributes_forms() {
    let attrs = Renderer::extract_attributes("<img src=\"a.png\" alt='x y' width=10 hidden />");
    let expected: Vec<(String, String)> = vec![
        ("src".to_string(), "a.png".to_string()),
        ("alt".to_string(), "x y".to_string()),
        ("width".to_string(), "10".to_string()),
        ("hidden".to_string(), "true".to_string()),
    ];
    assert_eq!(attrs, expected);
    assert!(Renderer::extract_attributes("<p>").is_empty());
}

#[test]
fn url_attributes() {
    for name in ["src", "href", "data", "poster", "srcset"] {
        assert!(Renderer::is_url_attribute(name));
    }
    assert!(!Renderer::is_url_attribute("alt"));
    assert!(!Renderer::is_url_attribute("SRC"));
}

#[test]
fn decode_html_entities_in_order() {
    assert_eq!(Renderer::decode_html_entities("&lt;a&gt; &amp; &quot;b&quot; &#39;c&#39;"), "<a> & \"b\" 'c'");
    assert_eq!(Renderer::decode_html_entities("&amp;lt;"), "&lt;");
    assert_eq!(Renderer::decode_html_entities("&amp;quot;"), "\"");
}

#[test]
fn code_block_extraction() {
    let block = Renderer::code_block(" <code class=\"language-rust\">fn a() -&gt; &amp;str {}\n</code>\n");
    assert_eq!(block, Some(("rust".to_string(), "fn a() -> &str {}\n".to_string())));
    assert_eq!(Renderer::code_block("<code>plain</code>"), None);
    assert_eq!(Renderer::code_block("<span class=\"language-rust\">x</span>"), None);
    assert_eq!(Renderer::code_block("<code class=\"language-rust\">x"), None);
    assert_eq!(Renderer::code_block("<code</code>"), None);
}

#[test]
fn lines_keep_their_endings() {
    assert_eq!(Renderer::lines_with_endings("foo\nbar\nbaz"), vec!["foo\n", "bar\n", "baz"]);
    assert_eq!(Renderer::lines_with_endings("a\n"), vec!["a\n"]);
    assert!(Renderer::lines_with_endings("").is_empty());
}

#[test]
fn highlight_code_wraps_in_block() {
    let renderer = Renderer::new();
    let block = renderer.highlight_code("fn main() {}\n", "rust").unwrap();
    assert!(block.starts_with("<pre class=\"syntax-highlight\"><code>"));
    assert!(block.ends_with("</code></pre>"));
    assert!(block.contains("<span class=\""));
    let plain = renderer.highlight_code("x < y\n", "no-such-language").unwrap();
    assert!(plain.starts_with("<pre class=\"syntax-highlight\"><code>"));
    assert!(plain.contains("x &lt; y"));
}

#[test]
fn highlight_code_blocks_replaces_only_code_blocks() {
    let renderer = Renderer::new();
    let html = "<p>a</p><pre><code class=\"language-rust\">let x = 1;\n</code></pre><pre>raw</pre><p>b</p>";
    let out = renderer.highlight_code_blocks(html);
    assert!(out.starts_with("<p>a</p><pre class=\"syntax-highlight\"><code>"));
    assert!(out.ends_with("</code></pre><pre>raw</pre><p>b</p>"));
    let untouched = "<p>a</p><pre>raw</pre><pre><code>no language</code></pre>";
    assert_eq!(renderer.highlight_code_blocks(untouched), untouched);
}

#[test]
fn components_then_highlighting() {
    let renderer = Renderer::new();
    let tera = engine_with("components/a.html", "<a class=\"link\" href=\"{{ href | safe }}\">{{ content | safe }}</a>");
    let out = renderer.render_markdown_with_components("[t](./x.html)\n\n```rust\nfn f() {}\n```\n", &tera, "posts/dev");
    assert!(out.contains("<a class=\"link\" href=\"/posts/dev/x.html\">t</a>"));
    assert!(out.contains("<pre class=\"syntax-highlight\"><code>"));
}

#[test]
fn highlighted_block_wraps_markup() {
    assert_eq!(Renderer::highlighted_block("<span>x</span>"), "<pre class=\"syntax-highlight\"><code><span>x</span></code></pre>");
    assert_eq!(Renderer::highlighted_block(""), "<pre class=\"syntax-highlight\"><code></code></pre>");
}

#[test]
fn unknown_language_falls_back_to_plain_text() {
    let set = syntect::parsing::SyntaxSet::load_defaults_newlines();
    let rust = set.find_syntax_by_token("rs");
    let plain = set.find_syntax_by_name("Plain Text");
    assert_eq!(Renderer::syntax_or_plain(rust, plain).unwrap().name, "Rust");
    assert_eq!(Renderer::syntax_or_plain(None, plain).unwrap().name, "Plain Text");
    assert!(Renderer::syntax_or_plain(None, None).is_none());
}

#[test]
fn theme_css_is_always_made() {
    let css = Renderer::new().generate_theme_css();
    assert!(css.is_ok());
    assert!(Renderer::default().generate_theme_css().is_ok());
}

#[test]
fn highlight_code_is_the_markup_of_the_chosen_syntax() {
    let renderer = Renderer::new();
    let code = "fn main() {\n    let x = 1;\n}\n";
    let set = syntect::parsing::SyntaxSet::load_defaults_newlines();
    let rust = set.find_syntax_by_token("rust").unwrap();
    let mut generator = syntect::html::ClassedHTMLGenerator::new_with_class_style(rust, &set, syntect::html::ClassStyle::Spaced);
    for line in Renderer::lines_with_endings(code) {
        generator.parse_html_for_line_which_includes_newline(&line).unwrap();
    }
    let body = generator.finalize();
    assert_eq!(renderer.highlight_code(code, "rust").unwrap(), Renderer::highlighted_block(&body));
    assert_ne!(body, code);
    // The same input gives the same block, and a language is found by its
    // extension as by its name.
    assert_eq!(renderer.highlight_code(code, "rust").unwrap(), renderer.highlight_code(code, "rs").unwrap());
    // An unknown language is read as plain text.
    assert_eq!(
        renderer.highlight_code("a < b\n", "no-such-language").unwrap(),
        renderer.highlight_code("a < b\n", "txt").unwrap()
    );
    assert_eq!(
        renderer.highlight_code("", "rust").unwrap(),
        "<pre class=\"syntax-highlight\"><code></code></pre>"
    );
}

#[test]
fn pre_content_is_highlighted_where_it_is_a_code_block() {
    let renderer = Renderer::new();
    let inner = "<code class=\"language-rust\">let a = &quot;x&quot;;\n</code>";
    assert_eq!(
        renderer.process_pre_content(inner),
        Some(renderer.highlight_code("let a = \"x\";\n", "rust").unwrap())
    );
    assert_eq!(renderer.process_pre_content("<code>no language</code>"), None);
    assert_eq!(renderer.process_pre_content("raw text"), None);
    assert_eq!(renderer.process_pre_content(""), None);
}

#[test]
fn code_blocks_are_spliced_in_place() {
    let renderer = Renderer::new();
    let first = "<code class=\"language-rust\">let x = 1;\n</code>";
    let second = "<code class=\"language-python\">x = 1\n</code>";
    let html = format!("<p>a</p><pre>{}</pre><pre>raw</pre><p>b</p><pre>{}</pre>", first, second);
    let expected = format!(
        "<p>a</p>{}<pre>raw</pre><p>b</p>{}",
        renderer.process_pre_content(first).unwrap(),
        renderer.process_pre_content(second).unwrap()
    );
    assert_eq!(renderer.highlight_code_blocks(&html), expected);
    assert_eq!(renderer.highlight_code_blocks(""), "");
    assert_eq!(renderer.highlight_code_blocks("<p>no code</p>"), "<p>no code</p>");
    assert_eq!(renderer.render_markdown("```rust\nlet x = 1;\n```\n"), format!("{}\n", renderer.process_pre_content(first).unwrap()));
}

#[test]
fn theme_css_is_made_from_the_two_themes() {
    let themes = syntect::highlighting::ThemeSet::load_defaults();
    let light = &themes.themes["Solarized (light)"];
    let dark = &themes.themes["base16-ocean.dark"];
    let colours = |theme: &syntect::highlighting::Theme| ssdocs::renderer::ThemeColours {
        background: theme.settings.background.map(|c| (c.r, c.g, c.b)),
        foreground: theme.settings.foreground.map(|c| (c.r, c.g, c.b)),
    };
    let sheet = syntect::html::css_for_theme_with_class_style(dark, syntect::html::ClassStyle::Spaced).unwrap();
    assert_eq!(
        Renderer::new().generate_theme_css().unwrap(),
        Renderer::theme_css(&colours(light), &colours(dark), &sheet)
    );
}
