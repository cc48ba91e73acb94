use git_productivity_analyzer::text::{
    author_key, author_matches, author_matches_optimized, author_matches_with_buffer,
};

#[test]
fn author_key_is_name_and_email() {
    assert_eq!(author_key("Alice", "a@example.com"), "Alice <a@example.com>");
    assert_eq!(author_key("", ""), " <>");
}

#[test]
fn author_filter_ignores_case() {
    let filter = Some("ALICE".to_string());
    assert!(author_matches("Alice", "a@example.com", &filter));
    assert!(!author_matches("Bob", "b@example.com", &filter));
    assert!(author_matches("Bob", "alice@example.com", &filter));
    assert!(author_matches("Bob", "b@example.com", &None));
    assert!(author_matches("Bob", "b@example.com", &Some(String::new())));
}

#[test]
fn author_filter_takes_lowercase_pattern_as_is() {
    assert!(author_matches_optimized("Alice", "a@example.com", &Some("alice".to_string())));
    assert!(!author_matches_optimized("Alice", "a@example.com", &Some("ALICE".to_string())));
    assert!(author_matches_optimized("Alice", "A@Example.com", &Some("a@example".to_string())));
    assert!(author_matches_optimized("Alice", "a@example.com", &None));
}

#[test]
fn author_filter_fills_the_buffers() {
    let mut name = String::from("old");
    let mut email = String::from("old");
    assert!(author_matches_with_buffer("Alice", "A@X.org", &Some("lic".to_string()), &mut name, &mut email));
    assert_eq!(name, "alice");
    assert_eq!(email, "a@x.org");
    assert!(author_matches_with_buffer("Bob", "B@X.org", &None, &mut name, &mut email));
    assert_eq!(name, "alice");
    assert!(!author_matches_with_buffer("Bob", "B@X.org", &Some("zed".to_string()), &mut name, &mut email));
    assert_eq!(name, "bob");
}
