use forge::error::ForgeError;
use forge::frontmatter::split_front_matter;

#[test]
fn a_valid_document_splits_into_metadata_and_body() {
    let doc = "---\ntitle: Hello\ndraft: false\n---\n\n# Body\n\ntext";
    let (meta, body) = split_front_matter(doc, "p.md").unwrap();
    assert_eq!(meta, "\ntitle: Hello\ndraft: false");
    assert_eq!(body, "# Body\n\ntext");
}

#[test]
fn a_leading_byte_order_mark_is_ignored() {
    let doc = "\u{feff}---\ntitle: X\n---\nbody";
    let (meta, body) = split_front_matter(doc, "p.md").unwrap();
    assert_eq!(meta, "\ntitle: X");
    assert_eq!(body, "body");
}

#[test]
fn a_missing_opening_delimiter_is_fatal_and_names_the_file() {
    let err = split_front_matter("title: X\n---\nbody", "posts/a.md").unwrap_err();
    match err {
        ForgeError::FrontMatter { path, message } => {
            assert_eq!(path, "posts/a.md");
            assert_eq!(message, "Missing opening --- delimiter");
        }
        other => panic!("unexpected error: {other:?}"),
    }
}

#[test]
fn a_missing_closing_delimiter_is_fatal_and_names_the_file() {
    let err = split_front_matter("---\ntitle: X\nbody", "posts/b.md").unwrap_err();
    match err {
        ForgeError::FrontMatter { path, message } => {
            assert_eq!(path, "posts/b.md");
            assert_eq!(message, "Missing closing --- delimiter");
        }
        other => panic!("unexpected error: {other:?}"),
    }
}

#[test]
fn the_body_loses_its_leading_newlines_only() {
    let doc = "---\nt: v\n---\n\n\n  indented body";
    let (_, body) = split_front_matter(doc, "p.md").unwrap();
    assert_eq!(body, "  indented body");
}

#[test]
fn the_split_happens_at_the_first_closing_delimiter() {
    let doc = "---\nt: v\n---\nbody with\n--- a line\n";
    let (meta, body) = split_front_matter(doc, "p.md").unwrap();
    assert_eq!(meta, "\nt: v");
    assert_eq!(body, "body with\n--- a line\n");
}
