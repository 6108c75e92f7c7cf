use pagebake::path::{normalize_prefix, page_file_stem, place_fallback, validate_path};

#[test]
fn valid_paths_start_with_a_slash() {
    assert!(validate_path("/"));
    assert!(validate_path("/about"));
    assert!(!validate_path(""));
    assert!(!validate_path("about"));
}

#[test]
fn prefixes_lose_their_trailing_slashes() {
    assert_eq!(normalize_prefix("/"), "");
    assert_eq!(normalize_prefix("/blog"), "/blog");
    assert_eq!(normalize_prefix("/blog/"), "/blog");
    assert_eq!(normalize_prefix("/blog//"), "/blog");
    assert_eq!(normalize_prefix(""), "");
}

#[test]
fn fallback_pages_are_placed_below_their_scope() {
    assert_eq!(place_fallback("/", "404"), "/404");
    assert_eq!(place_fallback("/blog/", "404"), "/blog/404");
    assert_eq!(place_fallback("/blog", "missing"), "/blog/missing");
}

#[test]
fn pages_are_filed_under_their_path_without_the_leading_slash() {
    assert_eq!(page_file_stem("/"), "index");
    assert_eq!(page_file_stem("/blog/post"), "blog/post");
    assert_eq!(page_file_stem("/blog/"), "blog/");
    assert_eq!(page_file_stem("//"), "/");
}

#[test]
fn fallback_pages_may_have_any_name() {
    assert_eq!(place_fallback("/", ""), "/");
    assert_eq!(place_fallback("/a/", "not/found"), "/a/not/found");
}

#[test]
fn paths_may_hold_any_characters() {
    assert!(validate_path("/über uns"));
    assert_eq!(normalize_prefix("/über/"), "/über");
    assert_eq!(page_file_stem("/über/uns"), "über/uns");
    assert_eq!(place_fallback("/über", "404"), "/über/404");
}

#[test]
fn a_prefix_of_slashes_contributes_nothing() {
    assert_eq!(normalize_prefix("//"), "");
    assert_eq!(normalize_prefix("///"), "");
}
