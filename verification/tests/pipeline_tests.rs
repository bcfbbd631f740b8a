use forge::config::SiteConfig;
use forge::content::Post;
use forge::frontmatter::FrontMatter;
use forge::pipeline::{
    analyze, index_page_output_path, post_output_path, template_for_page, template_for_post,
    PipelineOrchestrator,
};
use forge::content::Page;

fn post(slug: &str, date: i64) -> Post {
    let fm = FrontMatter {
        title: slug.to_string(),
        date: Some(date),
        draft: false,
        slug: Some(slug.to_string()),
        description: None,
        summary: None,
        categories: Vec::new(),
        tags: vec!["rust".to_string()],
        template: None,
        extra: Vec::new(),
    };
    Post::from_frontmatter(
        fm,
        String::new(),
        String::new(),
        Vec::new(),
        format!("content/posts/{slug}.md"),
        "http://localhost:3000",
    )
}

#[test]
fn two_posts_fit_on_a_single_index_page() {
    // Posts dated 2024-01-02 and 2024-01-01, already newest-first.
    let posts = vec![post("second", 1_704_153_600), post("first", 1_704_067_200)];
    let config = SiteConfig::default();
    assert_eq!(config.build.posts_per_page, 10);

    let site = analyze(posts, Vec::new(), &config);

    let pag = &site.index_paginator;
    assert_eq!(pag.total_pages, 1);
    assert_eq!(pag.current_page, 1);
    assert!(!pag.has_prev);
    assert!(!pag.has_next);
    assert_eq!(pag.items.len(), 2);
    assert_eq!(pag.items[0].slug, "second");
    assert_eq!(pag.items[1].slug, "first");
}

#[test]
fn analyze_links_posts_and_groups_taxonomies() {
    let posts = vec![post("newer", 200), post("older", 100)];
    let config = SiteConfig::default();
    let site = analyze(posts, Vec::new(), &config);

    assert_eq!(site.posts[0].earlier.as_ref().unwrap().slug, "older");
    assert!(site.posts[0].later.is_none());
    assert_eq!(site.posts[1].later.as_ref().unwrap().slug, "newer");
    assert!(site.posts[1].earlier.is_none());

    // Default taxonomies are categories and tags; both posts carry "rust".
    assert_eq!(site.taxonomies.len(), 2);
    assert_eq!(site.taxonomies[1].0, "tags");
    let tags = &site.taxonomies[1].1;
    assert_eq!(tags.items.len(), 1);
    assert_eq!(tags.items[0].name, "rust");
    assert_eq!(tags.items[0].post_count, 2);
}

#[test]
fn output_paths_follow_the_clean_url_layout() {
    assert_eq!(index_page_output_path(1), "");
    assert_eq!(index_page_output_path(2), "page/2");
    assert_eq!(post_output_path("hello-world"), "posts/hello-world");
}

#[test]
fn templates_default_per_kind_and_respect_overrides() {
    let mut p = post("a", 1);
    assert_eq!(template_for_post(&p), "post.html");
    p.template = Some("fancy.html".to_string());
    assert_eq!(template_for_post(&p), "fancy.html");

    let pg = Page::from_frontmatter(
        FrontMatter {
            title: "About".to_string(),
            date: None,
            draft: false,
            slug: None,
            description: None,
            summary: None,
            categories: Vec::new(),
            tags: Vec::new(),
            template: None,
            extra: Vec::new(),
        },
        String::new(),
        "",
        Vec::new(),
        "about.md".to_string(),
        "http://e.com",
    );
    assert_eq!(template_for_page(&pg), "page.html");
}

#[test]
fn the_orchestrator_remembers_its_run_parameters() {
    let config = SiteConfig::default();
    let orch = PipelineOrchestrator::new("site".to_string(), config, true);
    assert_eq!(orch.site_dir, "site");
    assert!(orch.force);
    assert_eq!(orch.config.title, "My Forge Site");
}
