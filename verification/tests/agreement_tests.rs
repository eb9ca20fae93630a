use std::collections::HashMap;
use std::path::{Component, Path};

use ssdocs::category::{capitalize, is_hidden};
use ssdocs::feeds::FeedGenerator;
use ssdocs::parser::Parser;
use ssdocs::renderer::Renderer;
use ssdocs::scaffold::title_slug;
use ssdocs::server::{get_content_type, request_target};
use ssdocs::slug::decode_from_url;
use ssdocs::text::{replace_all, string_of, trim};

/// A small generator of pseudo-random numbers, so that every run sees the
/// same inputs.
struct Numbers(u64);

impl Numbers {
    fn next(&mut self, below: usize) -> usize {
        self.0 = self.0.wrapping_mul(6364136223846793005).wrapping_add(1442695040888963407);
        ((self.0 >> 33) as usize) % below
    }

    fn text(&mut self, alphabet: &[&str], max_len: usize) -> String {
        let len = self.next(max_len + 1);
        (0..len).map(|_| alphabet[self.next(alphabet.len())]).collect()
    }
}

fn chars(s: &str) -> Vec<char> {
    s.chars().collect()
}

fn resolve_with_std(path: &str, base_path: &str) -> String {
    let trimmed = path.trim();
    let absolute = ["http://", "https://", "//", "#", "data:", "mailto:", "/"];
    if absolute.iter().any(|prefix| trimmed.starts_with(prefix)) {
        return trimmed.to_string();
    }
    if let Some(rest) = trimmed.strip_prefix("./") {
        return format!("/{}/{}", base_path.trim_matches('/'), rest);
    }
    if trimmed.starts_with("../") {
        let base_parts: Vec<&str> = base_path.trim_matches('/').split('/').collect();
        let path_parts: Vec<&str> = trimmed.split('/').collect();
        let up = path_parts.iter().take_while(|part| **part == "..").count();
        let kept = if up >= base_parts.len() { &base_parts[..0] } else { &base_parts[..base_parts.len() - up] };
        let mut result = String::from("/");
        if !kept.is_empty() {
            result.push_str(&kept.join("/"));
            result.push('/');
        }
        result.push_str(&path_parts[up..].join("/"));
        return result;
    }
    format!("/{}/{}", base_path.trim_matches('/'), trimmed)
}

#[test]
fn resolve_path_agrees_with_std_strings() {
    let mut numbers = Numbers(1);
    let alphabet = ["/", "/", ".", ".", "..", "a", "b", " ", "#", ":", "http://", "x.png", "é"];
    let bases = ["/", "", "posts", "posts/dev", "/posts/dev/", "a//b", "//", "한/글"];
    for _ in 0..3000 {
        let path = numbers.text(&alphabet, 6);
        let base = bases[numbers.next(bases.len())];
        assert_eq!(Renderer::resolve_path(&path, base), resolve_with_std(&path, base), "{:?} {:?}", path, base);
    }
}

fn attributes_with_std(tag: &str) -> HashMap<String, String> {
    let mut attrs = HashMap::new();
    let tag = tag.trim_start_matches('<').trim_end_matches('>').trim_end_matches('/');
    let parts: Vec<&str> = tag.splitn(2, ' ').collect();
    if parts.len() < 2 {
        return attrs;
    }
    let mut rest = parts[1].chars().peekable();
    while rest.peek().is_some() {
        while rest.peek() == Some(&' ') {
            rest.next();
        }
        let mut key = String::new();
        while let Some(&ch) = rest.peek() {
            if ch == '=' || ch == ' ' {
                break;
            }
            key.push(ch);
            rest.next();
        }
        if key.is_empty() {
            break;
        }
        while rest.peek() == Some(&' ') {
            rest.next();
        }
        if rest.peek() != Some(&'=') {
            attrs.insert(key, String::from("true"));
            continue;
        }
        rest.next();
        while rest.peek() == Some(&' ') {
            rest.next();
        }
        let mut value = String::new();
        if let Some(&quote) = rest.peek() {
            if quote == '"' || quote == '\'' {
                rest.next();
                for ch in rest.by_ref() {
                    if ch == quote {
                        break;
                    }
                    value.push(ch);
                }
            } else {
                while let Some(&ch) = rest.peek() {
                    if ch == ' ' {
                        break;
                    }
                    value.push(ch);
                    rest.next();
                }
            }
        }
        attrs.insert(key, value);
    }
    attrs
}

#[test]
fn attributes_agree_with_a_map_filled_in_order() {
    let mut numbers = Numbers(2);
    let alphabet = [" ", " ", "=", "\"", "'", "a", "b", "src", "/", ">", "<", "x"];
    for _ in 0..3000 {
        let tag = format!("<img {}>", numbers.text(&alphabet, 10));
        let listed: HashMap<String, String> = Renderer::extract_attributes(&tag).into_iter().collect();
        assert_eq!(listed, attributes_with_std(&tag), "{:?}", tag);
    }
    for tag in ["<p>", "<>", "", "<<a  b>>", "<a/>", "<a b=/>"] {
        let listed: HashMap<String, String> = Renderer::extract_attributes(tag).into_iter().collect();
        assert_eq!(listed, attributes_with_std(tag), "{:?}", tag);
    }
}

#[test]
fn replacing_and_trimming_agree_with_std() {
    let mut numbers = Numbers(3);
    let alphabet = ["&", "l", "t", ";", "a", "&lt;", "&amp;", "&quot;", "&#39;", "&gt;", "<", ">", "'", "\"", " ", "\n", "\u{a0}", "\t"];
    for _ in 0..3000 {
        let text = numbers.text(&alphabet, 8);
        let escaped = text.replace('&', "&amp;").replace('<', "&lt;").replace('>', "&gt;").replace('"', "&quot;").replace('\'', "&apos;");
        assert_eq!(FeedGenerator::escape_xml(&text), escaped);
        let decoded = text.replace("&lt;", "<").replace("&gt;", ">").replace("&amp;", "&").replace("&quot;", "\"").replace("&#39;", "'");
        assert_eq!(Renderer::decode_html_entities(&text), decoded);
        assert_eq!(string_of(&trim(&chars(&text))), text.trim());
        let pattern = numbers.text(&["&", "l", "t", ";", "a"], 3);
        if !pattern.is_empty() {
            let made = replace_all(&chars(&text), &chars(&pattern), &chars("<>"));
            assert_eq!(string_of(&made), text.replace(&pattern, "<>"));
        }
        let lines: Vec<&str> = text.split_inclusive('\n').collect();
        assert_eq!(Renderer::lines_with_endings(&text), lines);
    }
}

#[test]
fn frontmatter_split_agrees_with_splitn() {
    let mut numbers = Numbers(4);
    let alphabet = ["-", "-", "-", "---", "a", " ", "\n", "title: x"];
    for _ in 0..3000 {
        let text = numbers.text(&alphabet, 10);
        let parts: Vec<&str> = text.splitn(3, "---").collect();
        let expected = if parts.len() < 3 { None } else { Some((parts[1].trim(), parts[2].trim())) };
        assert_eq!(Parser::split_frontmatter(&text).ok(), expected, "{:?}", text);
        assert_eq!(Parser::has_frontmatter(&text), text.trim_start().starts_with("---"));
    }
}

fn category_with_std(path: &str) -> Option<String> {
    let components: Vec<Component> = Path::new(path).components().collect();
    for i in 0..components.len() {
        if let Component::Normal(name) = components[i] {
            if name == "posts" && i + 1 < components.len() {
                if let Component::Normal(category) = components[i + 1] {
                    return category.to_str().map(|s| s.to_string());
                }
            }
        }
    }
    None
}

#[test]
fn paths_agree_with_std_paths() {
    let mut numbers = Numbers(5);
    let alphabet = ["/", "/", ".", "..", "posts", "dev", "a.md", ".x", "_y", "b.tar.gz", "한글"];
    for _ in 0..5000 {
        let path = numbers.text(&alphabet, 7);
        let stem = Path::new(&path).file_stem().and_then(|s| s.to_str()).map(|s| s.to_string());
        assert_eq!(Parser::path_to_slug(&path).ok(), stem, "{:?}", path);
        let hidden = Path::new(&path)
            .file_name()
            .and_then(|n| n.to_str())
            .map(|n| n.starts_with('.') || n.starts_with('_'))
            .unwrap_or(false);
        assert_eq!(is_hidden(&path), hidden, "{:?}", path);
    }
    let separated = ["/", "/", "/", ".", "..", "posts", "dev", "x"];
    for _ in 0..5000 {
        let path: String = (0..numbers.next(8)).map(|_| format!("{}/", separated[numbers.next(separated.len())])).collect();
        assert_eq!(Parser::extract_category(&path).ok(), category_with_std(&path), "{:?}", path);
    }
}

#[test]
fn small_rules_agree_with_std() {
    let mut numbers = Numbers(6);
    let alphabet = ["a", "B", "ß", "é", "Ǆ", " ", "-", "_", "1", ".", "한", "!", ".html", ".css", ".js", ".png", ".jpg", ".jpeg", ".svg"];
    for _ in 0..3000 {
        let text = numbers.text(&alphabet, 6);
        let mut rest = text.chars();
        let capital: String = match rest.next() {
            None => String::new(),
            Some(first) => first.to_uppercase().chain(rest).collect(),
        };
        assert_eq!(capitalize(&text), capital);
        let slug: String = text.to_lowercase().replace(' ', "-").chars().filter(|c| c.is_alphanumeric() || *c == '-').collect();
        assert_eq!(title_slug(&text), slug);
        let kinds = [(".html", "text/html"), (".css", "text/css"), (".js", "application/javascript"), (".png", "image/png"), (".jpg", "image/jpeg"), (".jpeg", "image/jpeg"), (".svg", "image/svg+xml")];
        let kind = kinds.iter().find(|(end, _)| text.ends_with(end)).map(|(_, kind)| *kind).unwrap_or("application/octet-stream");
        assert_eq!(get_content_type(&text), kind);
    }
    let words = ["GET", "/", "/a%20b", " ", "  ", "\r\n", "\n", "HTTP/1.1", "\t"];
    for _ in 0..3000 {
        let request = numbers.text(&words, 6);
        let expected = match request.lines().next().unwrap_or("").split_whitespace().nth(1) {
            Some(word) => decode_from_url(word),
            None => "/".to_string(),
        };
        assert_eq!(request_target(&request), expected, "{:?}", request);
    }
}
