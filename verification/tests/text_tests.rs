use forge::text::{
    html_escape, join_with_spaces, split_words, str_eq, strip_html, trim_leading_matching,
    trim_trailing_slashes, truncate_words, usize_to_string, xml_escape,
};

#[test]
fn decimal_rendering_matches_the_standard_formatting() {
    assert_eq!(usize_to_string(0), "0");
    assert_eq!(usize_to_string(7), "7");
    assert_eq!(usize_to_string(10), "10");
    assert_eq!(usize_to_string(90210), "90210");
}

#[test]
fn trimming_slashes_and_leading_characters() {
    assert_eq!(trim_trailing_slashes("http://e.com///"), "http://e.com");
    assert_eq!(trim_trailing_slashes("no-slash"), "no-slash");
    assert_eq!(trim_trailing_slashes("///"), "");
    assert_eq!(trim_leading_matching("///path", '/'), "path");
    assert_eq!(trim_leading_matching("\n\nbody", '\n'), "body");
    assert_eq!(trim_leading_matching("plain", '\n'), "plain");
}

#[test]
fn string_equality_is_by_characters() {
    assert!(str_eq("abc", "abc"));
    assert!(!str_eq("abc", "abd"));
    assert!(!str_eq("abc", "ab"));
    assert!(str_eq("", ""));
}

#[test]
fn html_escape_maps_the_four_metacharacters() {
    assert_eq!(html_escape(r#"<a href="x">&"#), "&lt;a href=&quot;x&quot;&gt;&amp;");
    assert_eq!(html_escape("plain"), "plain");
    assert_eq!(html_escape("it's"), "it's");
}

#[test]
fn xml_escape_also_maps_the_apostrophe() {
    assert_eq!(xml_escape("a & b"), "a &amp; b");
    assert_eq!(xml_escape("it's <b>"), "it&apos;s &lt;b&gt;");
    assert_eq!(xml_escape(r#"say "hi""#), "say &quot;hi&quot;");
}

#[test]
fn strip_html_keeps_only_text_outside_tags() {
    assert_eq!(strip_html("<p>hello <b>bold</b> world</p>"), "hello bold world");
    assert_eq!(strip_html("no tags"), "no tags");
    assert_eq!(strip_html("<br/>"), "");
}

#[test]
fn word_splitting_and_joining_round_trip() {
    let words = split_words("  one\ttwo\nthree  ");
    assert_eq!(words, vec!["one", "two", "three"]);
    assert_eq!(join_with_spaces(&words), "one two three");
    assert!(split_words("   ").is_empty());
    assert_eq!(join_with_spaces(&Vec::new()), "");
}

#[test]
fn truncation_keeps_short_text_and_cuts_long_text() {
    assert_eq!(truncate_words("one two three", 5), "one two three");
    assert_eq!(truncate_words("one two three four", 2), "one two...");
    assert_eq!(truncate_words("", 3), "");
    assert_eq!(truncate_words("a  b   c", 2), "a b...");
}
