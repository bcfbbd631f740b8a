use forge::config::TaxonomyConfig;
use forge::content::Post;
use forge::frontmatter::FrontMatter;
use forge::taxonomy::{build_taxonomies, build_taxonomy};

fn post_with(slug: &str, categories: Vec<&str>, tags: Vec<&str>) -> Post {
    let fm = FrontMatter {
        title: slug.to_string(),
        date: Some(0),
        draft: false,
        slug: Some(slug.to_string()),
        description: None,
        summary: None,
        categories: categories.into_iter().map(|s| s.to_string()).collect(),
        tags: tags.into_iter().map(|s| s.to_string()).collect(),
        template: None,
        extra: Vec::new(),
    };
    Post::from_frontmatter(
        fm,
        String::new(),
        String::new(),
        Vec::new(),
        format!("{slug}.md"),
        "http://localhost:3000",
    )
}

fn tags_config() -> TaxonomyConfig {
    TaxonomyConfig { name: "tags".to_string(), slug: None, paginate: true, feed: false }
}

#[test]
fn a_post_appears_exactly_under_its_own_tags() {
    let posts = vec![
        post_with("one", vec![], vec!["a", "b"]),
        post_with("two", vec![], vec!["b"]),
    ];
    let coll = build_taxonomy(&posts, &tags_config(), "http://localhost:3000");
    assert_eq!(coll.name, "tags");
    assert_eq!(coll.slug, "tags");
    assert_eq!(coll.items.len(), 2);

    let a = &coll.items[0];
    let b = &coll.items[1];
    assert_eq!(a.name, "a");
    assert_eq!(b.name, "b");

    let a_slugs: Vec<&str> = a.posts.iter().map(|r| r.slug.as_str()).collect();
    let b_slugs: Vec<&str> = b.posts.iter().map(|r| r.slug.as_str()).collect();
    assert_eq!(a_slugs, vec!["one"]);
    assert_eq!(b_slugs, vec!["one", "two"]);
    assert_eq!(a.post_count, a.posts.len());
    assert_eq!(b.post_count, b.posts.len());
}

#[test]
fn items_are_sorted_by_name_and_carry_slugged_permalinks() {
    let posts = vec![post_with("p", vec![], vec!["Zeta Stuff", "alpha", "Beta"])];
    let coll = build_taxonomy(&posts, &tags_config(), "http://localhost:3000/");
    let names: Vec<&str> = coll.items.iter().map(|i| i.name.as_str()).collect();
    assert_eq!(names, vec!["Beta", "Zeta Stuff", "alpha"]);
    let zeta = &coll.items[1];
    assert_eq!(zeta.slug, "zeta-stuff");
    assert_eq!(zeta.permalink, "http://localhost:3000/tags/zeta-stuff/");
}

#[test]
fn unrecognized_taxonomy_names_produce_an_empty_collection() {
    let posts = vec![post_with("p", vec!["news"], vec!["x"])];
    let config = TaxonomyConfig {
        name: "series".to_string(),
        slug: None,
        paginate: true,
        feed: false,
    };
    let coll = build_taxonomy(&posts, &config, "http://localhost:3000");
    assert_eq!(coll.name, "series");
    assert!(coll.items.is_empty());
}

#[test]
fn explicit_collection_slug_is_kept() {
    let posts = vec![post_with("p", vec!["news"], vec![])];
    let config = TaxonomyConfig {
        name: "categories".to_string(),
        slug: Some("topics".to_string()),
        paginate: true,
        feed: false,
    };
    let coll = build_taxonomy(&posts, &config, "http://localhost:3000");
    assert_eq!(coll.slug, "topics");
    assert_eq!(coll.items[0].permalink, "http://localhost:3000/topics/news/");
}

#[test]
fn build_taxonomies_keys_collections_by_configured_name() {
    let posts = vec![post_with("p", vec!["news"], vec!["x", "y"])];
    let configs = vec![
        TaxonomyConfig {
            name: "categories".to_string(),
            slug: None,
            paginate: true,
            feed: false,
        },
        tags_config(),
    ];
    let all = build_taxonomies(&posts, &configs, "http://localhost:3000");
    assert_eq!(all.len(), 2);
    assert_eq!(all[0].0, "categories");
    assert_eq!(all[0].1.items.len(), 1);
    assert_eq!(all[1].0, "tags");
    assert_eq!(all[1].1.items.len(), 2);
}

#[test]
fn duplicate_values_on_one_post_are_counted_per_occurrence() {
    let posts = vec![post_with("p", vec![], vec!["a", "a"])];
    let coll = build_taxonomy(&posts, &tags_config(), "http://localhost:3000");
    assert_eq!(coll.items.len(), 1);
    assert_eq!(coll.items[0].post_count, 2);
}
