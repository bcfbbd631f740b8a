use forge::config::{validate_config, SiteConfig};
use forge::content::{include_in_build, Post};
use forge::error::ForgeError;
use forge::frontmatter::FrontMatter;
use forge::search::search_entries;
use forge::urls::{make_url, taxonomy_url};
use forge::watch::{effective_config, rebuild_outcome, RebuildDebounce, RebuildOutcome};

#[test]
fn default_configuration_is_accepted() {
    let config = SiteConfig::default();
    assert!(validate_config(&config).is_ok());
    assert_eq!(config.base_url, "http://localhost:3000");
    assert_eq!(config.language, "en");
    assert_eq!(config.build.output_dir, "public");
    assert_eq!(config.taxonomies.len(), 2);
    assert_eq!(config.taxonomies[0].name, "categories");
    assert_eq!(config.taxonomies[1].name, "tags");
}

#[test]
fn empty_titles_and_zero_page_sizes_are_rejected() {
    let mut config = SiteConfig::default();
    config.title = String::new();
    match validate_config(&config).unwrap_err() {
        ForgeError::Config(m) => assert_eq!(m, "Site title cannot be empty"),
        other => panic!("unexpected error: {other:?}"),
    }

    let mut config = SiteConfig::default();
    config.build.posts_per_page = 0;
    match validate_config(&config).unwrap_err() {
        ForgeError::Config(m) => assert_eq!(m, "posts_per_page must be greater than 0"),
        other => panic!("unexpected error: {other:?}"),
    }
}

#[test]
fn urls_are_joined_and_slugified() {
    assert_eq!(make_url("http://e.com/", "/css/site.css"), "http://e.com/css/site.css");
    assert_eq!(make_url("http://e.com", "about/"), "http://e.com/about/");
    assert_eq!(
        taxonomy_url("http://e.com/", "My Tags", None),
        "http://e.com/my-tags/"
    );
    assert_eq!(
        taxonomy_url("http://e.com", "tags", Some("Rust Tips")),
        "http://e.com/tags/rust-tips/"
    );
}

#[test]
fn the_debounce_coalesces_bursts_into_one_rebuild() {
    let mut d = RebuildDebounce::new();
    assert!(!d.tick());
    d.note_event();
    d.note_event();
    d.note_event();
    assert!(d.tick());
    assert!(!d.tick());
    d.note_event();
    assert!(d.tick());
}

#[test]
fn rebuilds_reload_on_success_and_keep_serving_on_failure() {
    assert_eq!(rebuild_outcome(true), RebuildOutcome::ReloadClients);
    assert_eq!(rebuild_outcome(false), RebuildOutcome::KeepServing);
}

#[test]
fn a_failed_config_reload_falls_back_to_the_previous_one() {
    let previous = SiteConfig::default();
    let kept = effective_config(None, previous.clone());
    assert_eq!(kept.title, previous.title);

    let mut fresh = SiteConfig::default();
    fresh.title = "Renamed".to_string();
    let used = effective_config(Some(fresh), previous);
    assert_eq!(used.title, "Renamed");
}

#[test]
fn search_entries_carry_stripped_truncated_bodies_and_dates() {
    let fm = FrontMatter {
        title: "Entry".to_string(),
        date: Some(1_704_153_600),  // 2024-01-02 UTC
        draft: false,
        slug: Some("entry".to_string()),
        description: Some("desc".to_string()),
        categories: vec!["news".to_string()],
        tags: vec!["x".to_string()],
        summary: None,
        template: None,
        extra: Vec::new(),
    };
    let post = Post::from_frontmatter(
        fm,
        "<p>alpha <b>beta</b></p> gamma".to_string(),
        String::new(),
        Vec::new(),
        "e.md".to_string(),
        "http://e.com",
    );
    let entries = search_entries(&vec![post]);
    assert_eq!(entries.len(), 1);
    let e = &entries[0];
    assert_eq!(e.title, "Entry");
    assert_eq!(e.url, "http://e.com/posts/entry/");
    assert_eq!(e.body, "alpha beta gamma");
    assert_eq!(e.description, "desc");
    assert_eq!(e.categories, vec!["news".to_string()]);
    assert_eq!(e.date, "2024-01-02");
}

#[test]
fn drafts_enter_the_build_only_when_requested() {
    let mut fm = FrontMatter {
        title: "d".to_string(),
        date: None,
        draft: true,
        slug: None,
        description: None,
        summary: None,
        categories: Vec::new(),
        tags: Vec::new(),
        template: None,
        extra: Vec::new(),
    };
    assert!(!include_in_build(&fm, false));
    assert!(include_in_build(&fm, true));
    fm.draft = false;
    assert!(include_in_build(&fm, false));
}
