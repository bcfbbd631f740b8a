use forge::cache::{BuildManifest, IncrementalCache};
use forge::content::{assign_content_hash, Post};
use forge::frontmatter::FrontMatter;
use forge::pipeline::record_outputs;

fn post_from_body(slug: &str, body: &[u8]) -> Post {
    let fm = FrontMatter {
        title: slug.to_string(),
        date: Some(0),
        draft: false,
        slug: Some(slug.to_string()),
        description: None,
        summary: None,
        categories: Vec::new(),
        tags: Vec::new(),
        template: None,
        extra: Vec::new(),
    };
    let mut p = Post::from_frontmatter(
        fm,
        String::new(),
        String::new(),
        Vec::new(),
        format!("content/posts/{slug}.md"),
        "http://localhost:3000",
    );
    assign_content_hash(&mut p, body);
    p
}

fn fresh_cache(force: bool) -> IncrementalCache {
    IncrementalCache::load(".forge_cache".to_string(), None, force, 0)
}

#[test]
fn a_fresh_manifest_is_empty_and_versioned() {
    let m = BuildManifest::new(42);
    assert_eq!(m.version, "0.1.0");
    assert_eq!(m.last_build, 42);
    assert_eq!(m.config_hash, "");
    assert_eq!(m.template_hash, "");
    assert!(m.file_hashes.is_empty());
}

#[test]
fn load_keeps_a_persisted_manifest_unless_forced() {
    let mut persisted = BuildManifest::new(7);
    persisted.config_hash = "abc".to_string();
    let kept = IncrementalCache::load("d".to_string(), Some(persisted.clone()), false, 9);
    assert_eq!(kept.manifest.config_hash, "abc");
    assert_eq!(kept.manifest.last_build, 7);

    let forced = IncrementalCache::load("d".to_string(), Some(persisted), true, 9);
    assert_eq!(forced.manifest.config_hash, "");
    assert_eq!(forced.manifest.last_build, 9);
    assert!(forced.force);
}

#[test]
fn unseen_paths_are_dirty_and_recorded_ones_are_clean() {
    let mut cache = fresh_cache(false);
    assert!(cache.is_dirty("a.md", "h1"));
    cache.update_file("a.md".to_string(), "h1".to_string(), "out/a".to_string());
    assert!(!cache.is_dirty("a.md", "h1"));
    assert!(cache.is_dirty("a.md", "h2"));
    assert!(cache.is_dirty("b.md", "h1"));
}

#[test]
fn force_overrides_every_staleness_question() {
    let mut cache = fresh_cache(true);
    cache.update_file("a.md".to_string(), "h1".to_string(), "out/a".to_string());
    assert!(cache.is_dirty("a.md", "h1"));
    assert!(cache.config_changed("anything"));
    assert!(cache.templates_changed("anything"));
}

#[test]
fn config_and_template_hashes_compare_exactly() {
    let mut cache = fresh_cache(false);
    cache.set_config_hash("c1".to_string());
    cache.set_template_hash("t1".to_string());
    assert!(!cache.config_changed("c1"));
    assert!(cache.config_changed("c2"));
    assert!(!cache.templates_changed("t1"));
    assert!(cache.templates_changed("t2"));
}

#[test]
fn changing_one_body_flips_only_that_path() {
    let original = post_from_body("a", b"first body");
    let edited = post_from_body("a", b"first body, edited");
    let other = post_from_body("b", b"second body");
    assert_ne!(original.content_hash, edited.content_hash);

    let mut cache = fresh_cache(false);
    cache.update_file(
        original.source_path.clone(),
        original.content_hash.clone(),
        "out/a".to_string(),
    );
    cache.update_file(
        other.source_path.clone(),
        other.content_hash.clone(),
        "out/b".to_string(),
    );

    assert!(cache.is_dirty(&edited.source_path, &edited.content_hash));
    assert!(!cache.is_dirty(&other.source_path, &other.content_hash));
}

#[test]
fn rebuilding_unchanged_sources_keeps_the_file_table_identical() {
    let posts = vec![post_from_body("a", b"alpha"), post_from_body("b", b"beta")];

    let mut first = fresh_cache(false);
    record_outputs(&mut first, &posts, "public");
    let first_entries: Vec<(String, String, String)> = first
        .file_hashes()
        .iter()
        .map(|(k, r)| (k.clone(), r.content_hash.clone(), r.output_path.clone()))
        .collect();

    let mut second = IncrementalCache::load(
        ".forge_cache".to_string(),
        Some(first.manifest.clone()),
        false,
        0,
    );
    record_outputs(&mut second, &posts, "public");
    let second_entries: Vec<(String, String, String)> = second
        .file_hashes()
        .iter()
        .map(|(k, r)| (k.clone(), r.content_hash.clone(), r.output_path.clone()))
        .collect();

    assert_eq!(first_entries, second_entries);
    assert_eq!(first_entries.len(), 2);
    assert_eq!(first_entries[0].0, "content/posts/a.md");
    assert_eq!(first_entries[0].2, "public/posts/a/index.html");
}

#[test]
fn updating_a_recorded_path_replaces_its_record_in_place() {
    let mut cache = fresh_cache(false);
    cache.update_file("a.md".to_string(), "h1".to_string(), "out/a".to_string());
    cache.update_file("b.md".to_string(), "h2".to_string(), "out/b".to_string());
    cache.update_file("a.md".to_string(), "h3".to_string(), "out/a2".to_string());
    let entries = cache.file_hashes();
    assert_eq!(entries.len(), 2);
    assert_eq!(entries[0].0, "a.md");
    assert_eq!(entries[0].1.content_hash, "h3");
    assert_eq!(entries[0].1.output_path, "out/a2");
    assert_eq!(entries[1].0, "b.md");
}
