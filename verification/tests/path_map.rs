use pagebake::text::join;
use pagebake::{PathMap, RouterError};

#[test]
fn a_new_map_is_empty() {
    let map: PathMap<String> = PathMap::new();
    assert_eq!(map.len(), 0);
    assert!(!map.contains_key("/"));
    assert_eq!(map.get("/"), None);
    assert_eq!(map.position("/"), None);
}

#[test]
fn entries_keep_the_order_of_insertion() {
    let map = PathMap::new()
        .insert("/b".to_owned(), "1".to_owned())
        .insert("/a".to_owned(), "2".to_owned())
        .insert("/c".to_owned(), "3".to_owned());
    assert_eq!(map.len(), 3);
    assert_eq!(map.keys(), vec!["/b", "/a", "/c"]);
    assert_eq!(map.position("/a"), Some(1));
    assert_eq!(map.key_at(2), "/c");
    assert_eq!(map.value_at(2), "3");
    assert_eq!(map.get("/b"), Some(&"1".to_owned()));
    assert!(map.contains_key("/c"));
    assert!(!map.contains_key("/d"));
}

#[test]
fn inserting_under_a_key_again_replaces_the_value_in_place() {
    let map = PathMap::new()
        .insert("/a".to_owned(), "1".to_owned())
        .insert("/b".to_owned(), "2".to_owned())
        .insert("/a".to_owned(), "3".to_owned());
    assert_eq!(
        map.into_entries(),
        vec![("/a".to_owned(), "3".to_owned()), ("/b".to_owned(), "2".to_owned())]
    );
}

#[test]
fn overlapping_maps_share_a_key() {
    let left = PathMap::new()
        .insert("/a".to_owned(), "1".to_owned())
        .insert("/b".to_owned(), "2".to_owned());
    let right = PathMap::new().insert("/b".to_owned(), "3".to_owned());
    let apart = PathMap::new().insert("/c".to_owned(), "4".to_owned());
    assert!(left.overlaps(&right));
    assert!(right.overlaps(&left));
    assert!(!left.overlaps(&apart));
    assert!(!left.overlaps(&PathMap::<String>::new()));
}

#[test]
fn pieces_are_joined_with_the_separator_between_them() {
    let parts = vec!["a".to_owned(), "b".to_owned(), "c".to_owned()];
    assert_eq!(join(&parts, ", "), "a, b, c");
    assert_eq!(join(&parts[..1].to_vec(), ", "), "a");
    assert_eq!(join(&Vec::new(), ", "), "");
    assert_eq!(join(&vec!["".to_owned(), "".to_owned()], "-"), "-");
}

#[test]
fn every_error_has_a_message() {
    assert_eq!(RouterError::InvalidPath.message(), "paths must start with a `/`");
    assert_eq!(RouterError::RouteConflict.message(), "a handler for the path already exists");
    assert_eq!(
        RouterError::FallbackConflict.message(),
        "a fallback handler for the scope already exists"
    );
    assert_eq!(
        RouterError::FallbackRouteConflict.message(),
        "a route already exists at the path of a fallback page"
    );
    assert_eq!(RouterError::RedirectCycle.message(), "a chain of redirects runs into a cycle");
}
