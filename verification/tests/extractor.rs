use linkchecker::parser::extract_urls_from_input;

#[test]
fn extract_urls_from_input_finds_unique_links_in_order() {
    let input = r#"
        - https://www.rust-lang.org
        - [Search](https://www.google.com)
        - https://www.rust-lang.org
        - text without url
        - https://this-link-does-not-exist.xyz
        "#;

    let urls = extract_urls_from_input(input);

    assert_eq!(
        urls,
        vec![
            "https://www.rust-lang.org".to_string(),
            "https://www.google.com".to_string(),
            "https://this-link-does-not-exist.xyz".to_string(),
        ],
        "should return unique urls preserving first-seen order"
    );
}

#[test]
fn extract_urls_from_input_empty_file_returns_empty_list() {
    let urls = extract_urls_from_input("");
    assert!(urls.is_empty(), "empty input should yield no urls");
}

#[test]
fn extract_urls_from_input_text_without_links_returns_empty_list() {
    let urls = extract_urls_from_input("no urls here\njust text");
    assert!(urls.is_empty(), "text-only input should yield no urls");
}

#[test]
fn extract_urls_duplicates_keep_first_seen_order() {
    let input = "https://a.test then https://b.test then https://a.test again";
    let urls = extract_urls_from_input(input);
    assert_eq!(
        urls,
        vec!["https://a.test".to_string(), "https://b.test".to_string()]
    );
}

#[test]
fn extract_urls_is_deterministic_across_runs() {
    let input = "see https://a.test and http://b.test and https://a.test";
    let first = extract_urls_from_input(input);
    let second = extract_urls_from_input(input);
    assert_eq!(first, second);
}

#[test]
fn extract_urls_stops_at_whitespace_and_brackets() {
    let urls = extract_urls_from_input("(https://x.test/page) [http://y.test/a]\thttps://z.test/b end");
    assert_eq!(
        urls,
        vec![
            "https://x.test/page".to_string(),
            "http://y.test/a".to_string(),
            "https://z.test/b".to_string(),
        ]
    );
}

#[test]
fn extract_urls_needs_a_character_after_the_scheme() {
    let urls = extract_urls_from_input("a bare http:// scheme and https:// too");
    assert!(urls.is_empty());
}
