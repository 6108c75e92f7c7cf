use pagebake::{get, redirect, Page, RenderConfig, Router, RouterError};

fn page(text: &'static str) -> impl FnOnce() -> String + 'static {
    move || text.to_owned()
}

fn render_pages(router: Router) -> Vec<(String, String)> {
    let mut config = RenderConfig::default();
    config.redirect_page_renderer = None;
    let out = router.render_to_map(config).unwrap();
    out.pages.into_entries()
}

#[test]
fn a_route_is_served_at_its_path() {
    let router = Router::new().route("/", get(page("home"))).unwrap();
    assert_eq!(render_pages(router), vec![("/".to_owned(), "home".to_owned())]);
}

#[test]
fn an_empty_path_is_invalid() {
    let result = Router::new().route("", get(page("x")));
    assert_eq!(result.err(), Some(RouterError::InvalidPath));
}

#[test]
fn a_path_without_leading_slash_is_invalid() {
    let result = Router::new().route("about", get(page("x")));
    assert_eq!(result.err(), Some(RouterError::InvalidPath));
}

#[test]
fn inserting_a_route_twice_is_a_conflict() {
    let router = Router::new().route("/a", get(page("one"))).unwrap();
    let result = router.route("/a", get(page("two")));
    assert_eq!(result.err(), Some(RouterError::RouteConflict));
}

#[test]
fn a_redirect_at_a_route_path_is_a_conflict() {
    let router = Router::new().route("/a", get(page("one"))).unwrap();
    let result = router.route("/a", redirect("/b"));
    assert_eq!(result.err(), Some(RouterError::RouteConflict));
}

#[test]
fn a_route_at_a_redirect_source_is_a_conflict() {
    let router = Router::new().route("/a", redirect("/b")).unwrap();
    let result = router.route("/a", get(page("one")));
    assert_eq!(result.err(), Some(RouterError::RouteConflict));
}

#[test]
fn a_redirect_target_must_be_a_valid_path() {
    let result = Router::new().route("/a", redirect("b"));
    assert_eq!(result.err(), Some(RouterError::InvalidPath));
}

#[test]
fn a_conflict_comes_before_an_invalid_target() {
    let router = Router::new().route("/a", get(page("one"))).unwrap();
    let result = router.route("/a", redirect("b"));
    assert_eq!(result.err(), Some(RouterError::RouteConflict));
}

#[test]
fn a_redirect_may_point_at_a_path_that_nothing_serves() {
    let router = Router::new().route("/a", redirect("/nowhere")).unwrap();
    let resolved = router.resolve_redirects().unwrap();
    assert_eq!(resolved.get("/a"), Some(&"/nowhere".to_owned()));
}

#[test]
fn a_second_fallback_is_a_conflict() {
    let router = Router::new().fallback(page("first")).unwrap();
    let result = router.fallback(page("second"));
    assert_eq!(result.err(), Some(RouterError::FallbackConflict));
}

#[test]
fn a_fallback_scope_must_be_a_valid_path() {
    let result = Router::new().fallback_at("blog", Page::new(page("x")));
    assert_eq!(result.err(), Some(RouterError::InvalidPath));
}

#[test]
fn fallbacks_of_different_scopes_do_not_conflict() {
    let router = Router::new()
        .fallback(page("top"))
        .unwrap()
        .fallback_at("/blog/", Page::new(page("blog")))
        .unwrap();
    assert_eq!(
        render_pages(router),
        vec![
            ("/404".to_owned(), "top".to_owned()),
            ("/blog/404".to_owned(), "blog".to_owned()),
        ]
    );
}

#[test]
fn merging_disjoint_tables_keeps_every_entry() {
    let left = Router::new()
        .route("/", get(page("home")))
        .unwrap()
        .route("/old", redirect("/"))
        .unwrap();
    let right = Router::new()
        .route("/blog", get(page("blog")))
        .unwrap()
        .route("/older", redirect("/blog"))
        .unwrap()
        .fallback(page("missing"))
        .unwrap();
    let merged = left.merge(right).unwrap();
    let redirects = merged.resolve_redirects().unwrap().into_entries();
    assert_eq!(
        redirects,
        vec![
            ("/old".to_owned(), "/".to_owned()),
            ("/older".to_owned(), "/blog".to_owned()),
        ]
    );
    assert_eq!(
        render_pages(merged),
        vec![
            ("/".to_owned(), "home".to_owned()),
            ("/blog".to_owned(), "blog".to_owned()),
            ("/404".to_owned(), "missing".to_owned()),
        ]
    );
}

#[test]
fn merging_tables_that_share_a_route_is_a_conflict() {
    let left = Router::new().route("/a", get(page("one"))).unwrap();
    let right = Router::new().route("/a", get(page("two"))).unwrap();
    assert_eq!(left.merge(right).err(), Some(RouterError::RouteConflict));
}

#[test]
fn merging_a_redirect_over_a_route_is_a_conflict() {
    let left = Router::new().route("/a", get(page("one"))).unwrap();
    let right = Router::new().route("/a", redirect("/b")).unwrap();
    assert_eq!(left.merge(right).err(), Some(RouterError::RouteConflict));
}

#[test]
fn merging_a_route_over_a_redirect_is_a_conflict() {
    let left = Router::new().route("/a", redirect("/b")).unwrap();
    let right = Router::new().route("/a", get(page("one"))).unwrap();
    assert_eq!(left.merge(right).err(), Some(RouterError::RouteConflict));
}

#[test]
fn merging_tables_that_share_a_redirect_is_a_conflict() {
    let left = Router::new().route("/a", redirect("/b")).unwrap();
    let right = Router::new().route("/a", redirect("/c")).unwrap();
    assert_eq!(left.merge(right).err(), Some(RouterError::RouteConflict));
}

#[test]
fn merging_tables_that_share_a_fallback_scope_is_a_conflict() {
    let left = Router::new().fallback(page("one")).unwrap();
    let right = Router::new().fallback(page("two")).unwrap();
    assert_eq!(left.merge(right).err(), Some(RouterError::FallbackConflict));
}

#[test]
fn a_route_conflict_comes_before_a_fallback_conflict() {
    let left = Router::new()
        .route("/a", get(page("one")))
        .unwrap()
        .fallback(page("one"))
        .unwrap();
    let right = Router::new()
        .route("/a", get(page("two")))
        .unwrap()
        .fallback(page("two"))
        .unwrap();
    assert_eq!(left.merge(right).err(), Some(RouterError::RouteConflict));
}

fn blog() -> Router {
    Router::new()
        .route("/", get(page("blog home")))
        .unwrap()
        .route("/post", get(page("post")))
        .unwrap()
        .route("/old", redirect("/"))
        .unwrap()
        .fallback(page("blog missing"))
        .unwrap()
}

#[test]
fn nesting_puts_the_prefix_before_every_path() {
    let router = Router::new()
        .route("/", get(page("home")))
        .unwrap()
        .nest("/blog", blog())
        .unwrap();
    let redirects = router.resolve_redirects().unwrap().into_entries();
    assert_eq!(redirects, vec![("/blog/old".to_owned(), "/blog/".to_owned())]);
    assert_eq!(
        render_pages(router),
        vec![
            ("/".to_owned(), "home".to_owned()),
            ("/blog/".to_owned(), "blog home".to_owned()),
            ("/blog/post".to_owned(), "post".to_owned()),
            ("/blog/404".to_owned(), "blog missing".to_owned()),
        ]
    );
}

#[test]
fn nesting_equals_declaring_the_prefixed_paths() {
    let nested = Router::new().nest("/blog", blog()).unwrap();
    let by_hand = Router::new()
        .route("/blog/", get(page("blog home")))
        .unwrap()
        .route("/blog/post", get(page("post")))
        .unwrap()
        .route("/blog/old", redirect("/blog/"))
        .unwrap()
        .fallback_at("/blog/", Page::new(page("blog missing")))
        .unwrap();
    assert_eq!(
        nested.resolve_redirects().unwrap().into_entries(),
        by_hand.resolve_redirects().unwrap().into_entries()
    );
    assert_eq!(render_pages(nested), render_pages(by_hand));
}

#[test]
fn nesting_strips_trailing_slashes_of_the_prefix() {
    let router = Router::new().nest("/blog//", blog()).unwrap();
    let paths: Vec<String> = render_pages(router).into_iter().map(|e| e.0).collect();
    assert_eq!(paths, vec!["/blog/", "/blog/post", "/blog/404"]);
}

#[test]
fn nesting_under_the_root_changes_no_path() {
    let router = Router::new().nest("/", blog()).unwrap();
    let paths: Vec<String> = render_pages(router).into_iter().map(|e| e.0).collect();
    assert_eq!(paths, vec!["/", "/post", "/404"]);
    let router = Router::new().nest("", blog()).unwrap();
    let paths: Vec<String> = render_pages(router).into_iter().map(|e| e.0).collect();
    assert_eq!(paths, vec!["/", "/post", "/404"]);
}

#[test]
fn nesting_under_a_prefix_without_leading_slash_is_invalid() {
    let result = Router::new().nest("blog", blog());
    assert_eq!(result.err(), Some(RouterError::InvalidPath));
}

#[test]
fn nesting_nothing_under_any_prefix_changes_nothing() {
    let router = Router::new()
        .route("/", get(page("home")))
        .unwrap()
        .nest("blog", Router::new())
        .unwrap();
    assert_eq!(render_pages(router), vec![("/".to_owned(), "home".to_owned())]);
}

#[test]
fn nesting_prefixes_the_targets_of_redirects() {
    let inner = Router::new().route("/old", redirect("/new")).unwrap();
    let router = Router::new().nest("/docs/", inner).unwrap();
    assert_eq!(
        router.resolve_redirects().unwrap().into_entries(),
        vec![("/docs/old".to_owned(), "/docs/new".to_owned())]
    );
}

#[test]
fn nesting_twice_puts_both_prefixes_before_the_paths() {
    let inner = Router::new().nest("/b", blog()).unwrap();
    let router = Router::new().nest("/a", inner).unwrap();
    let paths: Vec<String> = render_pages(router).into_iter().map(|e| e.0).collect();
    assert_eq!(paths, vec!["/a/b/", "/a/b/post", "/a/b/404"]);
}

#[test]
fn nesting_over_a_taken_path_is_a_conflict() {
    let router = Router::new().route("/blog/post", get(page("mine"))).unwrap();
    assert_eq!(router.nest("/blog", blog()).err(), Some(RouterError::RouteConflict));
}

#[test]
fn nesting_over_a_taken_fallback_scope_is_a_conflict() {
    let router = Router::new().fallback(page("top")).unwrap();
    assert_eq!(router.nest("/", blog_fallback_only()).err(), Some(RouterError::FallbackConflict));
}

fn blog_fallback_only() -> Router {
    Router::new().fallback(page("blog missing")).unwrap()
}
