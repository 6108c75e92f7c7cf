use pagebake::chains::resolve_chains;
use pagebake::{PathMap, RouterError};

fn redirects(pairs: &[(&str, &str)]) -> PathMap<String> {
    let mut map = PathMap::new();
    for (source, target) in pairs {
        map = map.insert(source.to_string(), target.to_string());
    }
    map
}

fn resolved(pairs: &[(&str, &str)]) -> Result<Vec<(String, String)>, RouterError> {
    resolve_chains(&redirects(pairs)).map(|map| map.into_entries())
}

fn owned(pairs: &[(&str, &str)]) -> Vec<(String, String)> {
    pairs.iter().map(|(source, target)| (source.to_string(), target.to_string())).collect()
}

#[test]
fn no_redirects_resolve_to_none() {
    assert_eq!(resolved(&[]), Ok(vec![]));
}

#[test]
fn a_chain_of_two_is_sent_to_its_end() {
    assert_eq!(
        resolved(&[("/a", "/b"), ("/b", "/c")]),
        Ok(owned(&[("/a", "/c"), ("/b", "/c")]))
    );
}

#[test]
fn a_long_chain_is_sent_to_its_end_whatever_the_order() {
    assert_eq!(
        resolved(&[("/c", "/d"), ("/a", "/b"), ("/d", "/e"), ("/b", "/c")]),
        Ok(owned(&[("/c", "/e"), ("/a", "/e"), ("/d", "/e"), ("/b", "/e")]))
    );
}

#[test]
fn chains_may_join() {
    assert_eq!(
        resolved(&[("/a", "/x"), ("/b", "/x"), ("/x", "/y")]),
        Ok(owned(&[("/a", "/y"), ("/b", "/y"), ("/x", "/y")]))
    );
}

#[test]
fn a_cycle_of_two_is_an_error() {
    assert_eq!(resolved(&[("/a", "/b"), ("/b", "/a")]), Err(RouterError::RedirectCycle));
}

#[test]
fn a_redirect_to_itself_is_an_error() {
    assert_eq!(resolved(&[("/a", "/a")]), Err(RouterError::RedirectCycle));
}

#[test]
fn a_chain_into_a_cycle_is_an_error() {
    assert_eq!(
        resolved(&[("/a", "/b"), ("/b", "/c"), ("/c", "/b")]),
        Err(RouterError::RedirectCycle)
    );
    assert_eq!(
        resolved(&[("/a", "/b"), ("/b", "/b")]),
        Err(RouterError::RedirectCycle)
    );
}

#[test]
fn a_cycle_anywhere_is_an_error() {
    assert_eq!(
        resolved(&[("/a", "/b"), ("/x", "/y"), ("/y", "/z"), ("/z", "/x")]),
        Err(RouterError::RedirectCycle)
    );
}

#[test]
fn redirects_without_chains_resolve_to_themselves() {
    let flat = [("/a", "/x"), ("/b", "/y"), ("/c", "/x")];
    assert_eq!(resolved(&flat), Ok(owned(&flat)));
}

#[test]
fn resolving_twice_changes_nothing() {
    let once = resolve_chains(&redirects(&[("/a", "/b"), ("/b", "/c"), ("/d", "/a")])).unwrap();
    let twice = resolve_chains(&once).unwrap();
    assert_eq!(twice.into_entries(), once.into_entries());
}
