use forge::translate::{replace_all, substitute_args, translate, Translator};

fn tables() -> Vec<(String, Vec<(String, String)>)> {
    vec![
        (
            "en".to_string(),
            vec![
                ("greeting".to_string(), "Hello %{name}!".to_string()),
                ("posts".to_string(), "Posts".to_string()),
            ],
        ),
        (
            "de".to_string(),
            vec![("posts".to_string(), "Artikel".to_string())],
        ),
    ]
}

#[test]
fn lookups_fall_back_to_the_key() {
    let t = tables();
    assert_eq!(translate(&t, "en", "posts"), "Posts");
    assert_eq!(translate(&t, "de", "posts"), "Artikel");
    assert_eq!(translate(&t, "de", "greeting"), "greeting");
    assert_eq!(translate(&t, "fr", "posts"), "posts");
}

#[test]
fn replace_all_substitutes_left_to_right_without_rescanning() {
    assert_eq!(replace_all("aaa", "aa", "b"), "ba");
    assert_eq!(replace_all("a-b-c", "-", "+"), "a+b+c");
    assert_eq!(replace_all("none here", "xyz", "!"), "none here");
    assert_eq!(replace_all("ab", "ab", "abab"), "abab");
    assert_eq!(replace_all("x", "", "y"), "x");
}

#[test]
fn placeholders_are_substituted_in_argument_order() {
    let args = vec![
        ("name".to_string(), "Ada".to_string()),
        ("day".to_string(), "Monday".to_string()),
    ];
    assert_eq!(
        substitute_args("Hi %{name}, see you %{day}. Bye %{name}.", &args),
        "Hi Ada, see you Monday. Bye Ada."
    );
    assert_eq!(substitute_args("no placeholders", &args), "no placeholders");
}

#[test]
fn a_translated_string_with_arguments() {
    let t = tables();
    let raw = translate(&t, "en", "greeting");
    let args = vec![("name".to_string(), "Grace".to_string())];
    assert_eq!(substitute_args(&raw, &args), "Hello Grace!");
}

#[test]
fn the_translator_knows_its_directory_and_fallback() {
    let tr = Translator::new("/srv/site", "en");
    assert_eq!(tr.translations_dir, "/srv/site/i18n");
    assert_eq!(tr.default_lang(), "en");
}
