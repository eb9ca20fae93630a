use ssdocs::cache::{hash_directory, hash_file, BuildCache, CacheEntry, DirectoryFile};

fn file(path: &str, content: &str) -> DirectoryFile {
    DirectoryFile { path: path.to_string(), content: content.as_bytes().to_vec() }
}

#[test]
fn test_hash_file() {
    let hash1 = hash_file("Hello, world!".as_bytes());
    let hash2 = hash_file("Hello, world!".as_bytes());

    assert_eq!(hash1, hash2);
    assert_eq!(hash1.len(), 64);
}

#[test]
fn hash_file_known_digest() {
    assert_eq!(
        hash_file(b""),
        "af1349b9f5f9a1a6a0404dea36dcc9499bcb25c9adc112b7cc9a93cae41f3262"
    );
}

#[test]
fn hash_file_is_sensitive_to_a_byte() {
    assert_ne!(hash_file(b"Hello, world!"), hash_file(b"Hello, world?"));
    assert_ne!(hash_file(b"a"), hash_file(b"a\0"));
}

#[test]
fn test_cache_needs_rebuild() {
    let cache = BuildCache::new();
    let path = "test.md";

    assert!(cache.needs_rebuild(path, "abc123", "template_hash"));
}

#[test]
fn test_cache_update_entry() {
    let mut cache = BuildCache::new();
    let path = "test.md";

    cache.update_entry(
        path,
        "abc123".to_string(),
        "def456".to_string(),
        "dist/test/index.html".to_string(),
    );

    assert!(!cache.needs_rebuild(path, "abc123", "def456"));
    assert!(cache.needs_rebuild(path, "different_hash", "def456"));
    assert!(cache.needs_rebuild(path, "abc123", "different_template_hash"));
}

#[test]
fn needs_rebuild_compares_both_digests() {
    for (a, b, c, d) in [("x", "y", "x", "y"), ("x", "y", "z", "y"), ("x", "y", "x", "z"), ("x", "y", "y", "x")] {
        let mut cache = BuildCache::new();
        cache.record_entry("p.md", a.to_string(), b.to_string(), "out".to_string(), "t".to_string());
        assert_eq!(cache.needs_rebuild("p.md", c, d), a != c || b != d);
        assert!(cache.needs_rebuild("q.md", c, d));
    }
}

#[test]
fn update_entry_stamps_and_overwrites() {
    let mut cache = BuildCache::new();
    cache.update_entry("a.md", "h1".to_string(), "t".to_string(), "o1".to_string());
    cache.update_entry("b.md", "h2".to_string(), "t".to_string(), "o2".to_string());
    cache.update_entry("a.md", "h3".to_string(), "t".to_string(), "o3".to_string());
    assert_eq!(cache.len(), 2);
    let entry = cache.get("a.md").unwrap();
    assert_eq!(entry.file_hash, "h3");
    assert_eq!(entry.output_path, "o3");
    assert!(entry.built_at.contains('T'));
    assert!(cache.get("c.md").is_none());
}

#[test]
fn entries_round_trip() {
    let mut cache = BuildCache::new();
    cache.record_entry("a.md", "h1".to_string(), "t".to_string(), "o1".to_string(), "2025-01-01T00:00:00+00:00".to_string());
    cache.record_entry("b.md", "h2".to_string(), "t".to_string(), "o2".to_string(), "2025-01-02T00:00:00+00:00".to_string());
    cache.record_entry("a.md", "h3".to_string(), "t".to_string(), "o3".to_string(), "2025-01-03T00:00:00+00:00".to_string());
    let list = cache.entries_list();
    assert_eq!(list.len(), 2);
    assert_eq!(list[0].0, "a.md");
    assert_eq!(list[1].0, "b.md");
    let again = BuildCache::from_entries(cache.version().clone(), list.clone());
    assert_eq!(again.entries_list(), list);
    assert_eq!(again.version(), "0.1.0");
    let copy = cache.duplicate();
    assert_eq!(copy.entries_list(), list);
}

#[test]
fn from_entries_last_wins() {
    let entry = |h: &str| CacheEntry {
        file_hash: h.to_string(),
        template_hash: "t".to_string(),
        output_path: "o".to_string(),
        built_at: "now".to_string(),
    };
    let cache = BuildCache::from_entries("9".to_string(), vec![("a".to_string(), entry("1")), ("a".to_string(), entry("2"))]);
    assert_eq!(cache.len(), 1);
    assert_eq!(cache.get("a").unwrap().file_hash, "2");
}

#[test]
fn hash_directory_ignores_enumeration_order() {
    let a = vec![file("t/base.html", "B"), file("t/post.html", "P"), file("t/a/x.html", "X")];
    let b = vec![file("t/a/x.html", "X"), file("t/post.html", "P"), file("t/base.html", "B")];
    assert_eq!(hash_directory(&a), hash_directory(&b));
    assert_eq!(hash_directory(&a).len(), 64);
}

#[test]
fn hash_directory_changes_on_rename() {
    let a = vec![file("t/base.html", "B"), file("t/post.html", "P")];
    let b = vec![file("t/base.html", "B"), file("t/page.html", "P")];
    assert_ne!(hash_directory(&a), hash_directory(&b));
}

#[test]
fn hash_directory_hashes_paths_then_contents_in_path_order() {
    let files = vec![file("t-old/z", "3"), file("t/b", "2"), file("t/a", "1")];
    let mut stream = Vec::new();
    for (path, content) in [("t/a", "1"), ("t/b", "2"), ("t-old/z", "3")] {
        stream.extend_from_slice(path.as_bytes());
        stream.extend_from_slice(content.as_bytes());
    }
    assert_eq!(hash_directory(&files), hash_file(&stream));
    assert_eq!(hash_directory(&Vec::new()), hash_file(b""));
}

#[test]
fn hash_directory_orders_paths_by_components() {
    let names = ["t/a.html", "t-old/b", "t/sub/c", "t/sub-x/d", "t/é", "t/z", "t.x/y", "t/a", "t", "/abs/x", "s/한글"];
    let files: Vec<DirectoryFile> = names.iter().rev().map(|n| file(n, n)).collect();
    let mut sorted: Vec<std::path::PathBuf> = names.iter().map(std::path::PathBuf::from).collect();
    sorted.sort();
    let mut stream = Vec::new();
    for path in &sorted {
        let text = path.to_string_lossy();
        stream.extend_from_slice(text.as_bytes());
        stream.extend_from_slice(text.as_bytes());
    }
    assert_eq!(hash_directory(&files), hash_file(&stream));
}

#[test]
fn hash_directory_breaks_ties_by_content() {
    let a = vec![file("p", "2"), file("p", "1"), file("p", "")];
    let b = vec![file("p", ""), file("p", "2"), file("p", "1")];
    assert_eq!(hash_directory(&a), hash_directory(&b));
    assert_eq!(hash_directory(&a), hash_file(b"pp1p2"));
}
