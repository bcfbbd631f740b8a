use forge::model::PostRef;
use forge::pagination::{page_path, Paginator};

fn make_ref(slug: &str) -> PostRef {
    PostRef {
        title: format!("Title {slug}"),
        slug: slug.to_string(),
        permalink: format!("http://localhost:3000/posts/{slug}/"),
    }
}

#[test]
fn empty_items_still_yield_one_empty_page() {
    let items: Vec<PostRef> = Vec::new();
    let p = Paginator::new(&items, 5, 1, "/blog");
    assert_eq!(p.total_pages, 1);
    assert_eq!(p.total_items, 0);
    assert_eq!(p.current_page, 1);
    assert!(p.items.is_empty());
    assert!(!p.has_prev);
    assert!(!p.has_next);
    assert_eq!(p.prev_path, None);
    assert_eq!(p.next_path, None);
    assert_eq!(p.pages.len(), 1);
}

#[test]
fn pages_partition_items_in_order_without_overlap() {
    let items: Vec<PostRef> = vec![
        make_ref("a"),
        make_ref("b"),
        make_ref("c"),
        make_ref("d"),
        make_ref("e"),
    ];
    let pages = Paginator::paginate_all(&items, 2, "");
    assert_eq!(pages.len(), 3);
    let mut collected: Vec<String> = Vec::new();
    let mut total = 0;
    for page in &pages {
        total += page.items.len();
        for item in &page.items {
            collected.push(item.slug.clone());
        }
    }
    assert_eq!(total, items.len());
    assert_eq!(collected, vec!["a", "b", "c", "d", "e"]);
    assert_eq!(pages[0].items.len(), 2);
    assert_eq!(pages[1].items.len(), 2);
    assert_eq!(pages[2].items.len(), 1);
}

#[test]
fn two_items_one_per_page_navigation() {
    let items: Vec<PostRef> = vec![make_ref("newer"), make_ref("older")];
    let pages = Paginator::paginate_all(&items, 1, "");
    assert_eq!(pages.len(), 2);

    let first = &pages[0];
    assert_eq!(first.current_page, 1);
    assert!(!first.has_prev);
    assert!(first.has_next);
    assert!(first.next_path.as_deref().unwrap().ends_with("/page/2/"));

    let second = &pages[1];
    assert_eq!(second.current_page, 2);
    assert!(second.has_prev);
    assert!(!second.has_next);
    assert_eq!(second.next_path, None);
    assert_eq!(second.prev_path.as_deref(), Some("/"));
}

#[test]
fn requested_page_is_clamped_into_range() {
    let items: Vec<PostRef> = vec![make_ref("a"), make_ref("b"), make_ref("c")];
    let low = Paginator::new(&items, 2, 0, "");
    assert_eq!(low.current_page, 1);
    let high = Paginator::new(&items, 2, 99, "");
    assert_eq!(high.current_page, 2);
    assert_eq!(high.items.len(), 1);
    assert_eq!(high.items[0].slug, "c");
}

#[test]
fn page_paths_follow_the_clean_url_convention() {
    assert_eq!(page_path("/blog/", 1), "/blog/");
    assert_eq!(page_path("/blog", 3), "/blog/page/3/");
    assert_eq!(page_path("", 1), "/");
    assert_eq!(page_path("", 2), "/page/2/");
    assert_eq!(page_path("///", 12), "/page/12/");
}

#[test]
fn page_links_mark_the_current_page() {
    let items: Vec<PostRef> = vec![make_ref("a"), make_ref("b"), make_ref("c")];
    let p = Paginator::new(&items, 1, 2, "");
    assert_eq!(p.pages.len(), 3);
    for (k, link) in p.pages.iter().enumerate() {
        assert_eq!(link.number, k + 1);
        assert_eq!(link.is_current, k + 1 == 2);
    }
    assert_eq!(p.pages[0].path, "/");
    assert_eq!(p.pages[1].path, "/page/2/");
    assert_eq!(p.pages[2].path, "/page/3/");
}
