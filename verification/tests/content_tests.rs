use forge::content::{
    assign_content_hash, link_adjacent, sort_posts_newest_first, Page, Post,
};
use forge::frontmatter::FrontMatter;

fn front_matter(title: &str) -> FrontMatter {
    FrontMatter {
        title: title.to_string(),
        date: Some(1_704_153_600),
        draft: false,
        slug: None,
        description: None,
        summary: None,
        categories: Vec::new(),
        tags: Vec::new(),
        template: None,
        extra: Vec::new(),
    }
}

fn post(slug: &str, date: i64) -> Post {
    let mut fm = front_matter(slug);
    fm.date = Some(date);
    fm.slug = Some(slug.to_string());
    Post::from_frontmatter(
        fm,
        String::new(),
        String::new(),
        Vec::new(),
        format!("content/posts/{slug}.md"),
        "http://localhost:3000",
    )
}

#[test]
fn from_frontmatter_fills_every_field() {
    let mut fm = front_matter("My First Post");
    fm.description = Some("about things".to_string());
    fm.tags = vec!["a".to_string(), "b".to_string()];
    let p = Post::from_frontmatter(
        fm,
        "<p>hello world</p>".to_string(),
        "hello world again".to_string(),
        Vec::new(),
        "content/posts/my-first-post.md".to_string(),
        "http://localhost:3000/",
    );
    assert_eq!(p.title, "My First Post");
    assert_eq!(p.slug, "my-first-post");
    assert_eq!(p.date, 1_704_153_600);
    assert_eq!(p.description, "about things");
    assert_eq!(p.summary, "about things");
    assert_eq!(p.word_count, 3);
    assert_eq!(p.reading_time, 1);
    assert_eq!(p.permalink, "http://localhost:3000/posts/my-first-post/");
    assert_eq!(p.tags, vec!["a".to_string(), "b".to_string()]);
    assert!(p.earlier.is_none());
    assert!(p.later.is_none());
    assert_eq!(p.content_hash, "");
}

#[test]
fn explicit_slug_wins_over_the_title() {
    let mut fm = front_matter("Some Title");
    fm.slug = Some("chosen".to_string());
    let p = Post::from_frontmatter(
        fm,
        String::new(),
        String::new(),
        Vec::new(),
        "x.md".to_string(),
        "http://example.com",
    );
    assert_eq!(p.slug, "chosen");
    assert_eq!(p.permalink, "http://example.com/posts/chosen/");
}

#[test]
fn reading_time_is_one_minute_per_two_hundred_words_rounded_up() {
    let words_200 = vec!["w"; 200].join(" ");
    let words_201 = vec!["w"; 201].join(" ");
    let p200 = Post::from_frontmatter(
        front_matter("a"),
        String::new(),
        words_200,
        Vec::new(),
        "a.md".to_string(),
        "http://e.com",
    );
    let p201 = Post::from_frontmatter(
        front_matter("b"),
        String::new(),
        words_201,
        Vec::new(),
        "b.md".to_string(),
        "http://e.com",
    );
    let empty = Post::from_frontmatter(
        front_matter("c"),
        String::new(),
        String::new(),
        Vec::new(),
        "c.md".to_string(),
        "http://e.com",
    );
    assert_eq!(p200.reading_time, 1);
    assert_eq!(p201.reading_time, 2);
    assert_eq!(empty.word_count, 0);
    assert_eq!(empty.reading_time, 1);
}

#[test]
fn page_from_frontmatter_builds_a_clean_permalink() {
    let pg = Page::from_frontmatter(
        front_matter("About Me"),
        "<p>hi</p>".to_string(),
        "hi there",
        Vec::new(),
        "content/pages/about.md".to_string(),
        "http://localhost:3000",
    );
    assert_eq!(pg.slug, "about-me");
    assert_eq!(pg.permalink, "http://localhost:3000/about-me/");
    assert_eq!(pg.word_count, 2);
    assert_eq!(pg.reading_time, 1);
}

#[test]
fn sorting_puts_the_newest_post_first() {
    let mut posts = vec![post("old", 100), post("new", 300), post("mid", 200)];
    sort_posts_newest_first(&mut posts);
    let slugs: Vec<&str> = posts.iter().map(|p| p.slug.as_str()).collect();
    assert_eq!(slugs, vec!["new", "mid", "old"]);
}

#[test]
fn linking_assigns_earlier_and_later_neighbours() {
    let mut posts = vec![post("newest", 300), post("middle", 200), post("oldest", 100)];
    link_adjacent(&mut posts);

    assert!(posts[0].later.is_none());
    assert_eq!(posts[0].earlier.as_ref().unwrap().slug, "middle");

    assert_eq!(posts[1].later.as_ref().unwrap().slug, "newest");
    assert_eq!(posts[1].earlier.as_ref().unwrap().slug, "oldest");

    assert_eq!(posts[2].later.as_ref().unwrap().slug, "middle");
    assert!(posts[2].earlier.is_none());
}

#[test]
fn linking_a_single_post_leaves_both_sides_absent() {
    let mut posts = vec![post("only", 1)];
    link_adjacent(&mut posts);
    assert!(posts[0].earlier.is_none());
    assert!(posts[0].later.is_none());
}

#[test]
fn content_hash_is_a_real_digest_of_the_bytes() {
    let mut a = post("a", 1);
    let mut b = post("b", 2);
    let mut c = post("c", 3);
    assign_content_hash(&mut a, b"body one");
    assign_content_hash(&mut b, b"body two");
    assign_content_hash(&mut c, b"body one");
    assert_eq!(a.content_hash.len(), 64);
    assert!(a.content_hash.chars().all(|ch| ch.is_ascii_hexdigit()));
    assert_ne!(a.content_hash, b.content_hash);
    assert_eq!(a.content_hash, c.content_hash);
    assert_ne!(a.content_hash, "body one");
}

#[test]
fn extra_metadata_rides_along_unchanged() {
    let mut fm = front_matter("With Extras");
    fm.extra = vec![
        ("banner".to_string(), "\"hero.png\"".to_string()),
        ("weight".to_string(), "3".to_string()),
    ];
    let p = Post::from_frontmatter(
        fm.clone(),
        String::new(),
        String::new(),
        Vec::new(),
        "x.md".to_string(),
        "http://e.com",
    );
    assert_eq!(p.extra, fm.extra);

    let pg = Page::from_frontmatter(
        fm.clone(),
        String::new(),
        "",
        Vec::new(),
        "x.md".to_string(),
        "http://e.com",
    );
    assert_eq!(pg.extra, fm.extra);
}
