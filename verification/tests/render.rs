use pagebake::path::page_file_stem;
use pagebake::{
    get, redirect, Page, Redirect, RedirectList, RedirectListRenderer, RedirectPageRenderer,
    RenderConfig, RouteList, RouteListRenderer, Router, RouterError,
};
use std::path::PathBuf;

fn page(text: &'static str) -> impl FnOnce() -> String + 'static {
    move || text.to_owned()
}

fn plain() -> RenderConfig {
    let mut config = RenderConfig::default();
    config.redirect_page_renderer = None;
    config
}

fn echo_targets() -> RenderConfig {
    let mut config = RenderConfig::default();
    config.redirect_page_renderer = Some(RedirectPageRenderer::new(|target: &str| {
        format!("to {target}")
    }));
    config
}

fn files(router: Router, config: RenderConfig) -> Vec<(PathBuf, String)> {
    let (pages, extra_files) = router.prepare_map(config).unwrap().into_parts();
    let mut files = Vec::new();
    for (path, page) in pages.into_entries() {
        let mut file = PathBuf::from(page_file_stem(&path));
        file.set_extension("html");
        files.push((file, page.produce()));
    }
    for (name, file) in extra_files.into_entries() {
        files.push((PathBuf::from(name), file.produce()));
    }
    files
}

fn file(name: &str, content: &str) -> (PathBuf, String) {
    (PathBuf::from(name), content.to_owned())
}

fn pair(first: &str, second: &str) -> (String, String) {
    (first.to_owned(), second.to_owned())
}

#[test]
fn the_default_settings() {
    let config = RenderConfig::default();
    assert_eq!(config.fallback_page_name, "404");
    assert!(!config.resolve_redirect_chains);
    assert!(config.redirect_page_renderer.is_some());
    assert!(config.redirect_lists.is_empty());
    assert!(config.route_lists.is_empty());
}

#[test]
fn a_single_root_route_gives_one_page_at_index_html() {
    let router = Router::new().route("/", get(page("<h1>Home</h1>"))).unwrap();
    assert_eq!(files(router, RenderConfig::default()), vec![file("index.html", "<h1>Home</h1>")]);
}

#[test]
fn a_single_root_route_gives_one_entry_in_the_map() {
    let router = Router::new().route("/", get(page("<h1>Home</h1>"))).unwrap();
    let out = router.render_to_map(RenderConfig::default()).unwrap();
    assert_eq!(out.pages.len(), 1);
    assert_eq!(out.pages.get("/"), Some(&"<h1>Home</h1>".to_owned()));
    assert_eq!(out.extra_files.len(), 0);
}

#[test]
fn a_nested_path_gives_a_page_in_a_directory() {
    let router = Router::new().route("/blog/post", get(page("post"))).unwrap();
    assert_eq!(files(router, RenderConfig::default()), vec![file("blog/post.html", "post")]);
}

#[test]
fn extra_files_are_laid_out_under_their_own_names_behind_the_pages() {
    let router = Router::new()
        .route("/", get(page("home")))
        .unwrap()
        .route("/old", redirect("/"))
        .unwrap();
    let mut config = plain();
    config.redirect_lists.push(RedirectList::for_cloudflare_pages());
    assert_eq!(
        files(router, config),
        vec![file("index.html", "home"), file("_redirects", "/old /")]
    );
}

#[test]
fn a_root_fallback_is_placed_at_404_by_default() {
    let router = Router::new().fallback(page("missing")).unwrap();
    let out = router.render_to_map(RenderConfig::default()).unwrap();
    assert_eq!(out.pages.into_entries(), vec![pair("/404", "missing")]);
}

#[test]
fn the_fallback_page_name_can_be_set() {
    let router = Router::new().fallback(page("missing")).unwrap();
    let mut config = RenderConfig::default();
    config.fallback_page_name = "missing".to_owned();
    let out = router.render_to_map(config).unwrap();
    assert_eq!(out.pages.into_entries(), vec![pair("/missing", "missing")]);
}

#[test]
fn a_scope_without_trailing_slash_gets_one_before_the_page_name() {
    let router = Router::new().fallback_at("/docs", Page::new(page("missing"))).unwrap();
    let out = router.render_to_map(RenderConfig::default()).unwrap();
    assert_eq!(out.pages.into_entries(), vec![pair("/docs/404", "missing")]);
}

#[test]
fn a_fallback_at_the_path_of_a_route_is_a_conflict() {
    let router = Router::new()
        .route("/404", get(page("mine")))
        .unwrap()
        .fallback(page("missing"))
        .unwrap();
    let result = router.render_to_map(RenderConfig::default());
    assert_eq!(result.err(), Some(RouterError::FallbackRouteConflict));
}

#[test]
fn a_fallback_at_the_path_of_a_redirect_page_is_a_conflict() {
    let router = Router::new()
        .route("/404", redirect("/"))
        .unwrap()
        .fallback(page("missing"))
        .unwrap();
    let result = router.render_to_map(RenderConfig::default());
    assert_eq!(result.err(), Some(RouterError::FallbackRouteConflict));
}

#[test]
fn a_fallback_at_a_redirect_source_is_no_conflict_without_redirect_pages() {
    let router = Router::new()
        .route("/404", redirect("/"))
        .unwrap()
        .fallback(page("missing"))
        .unwrap();
    let out = router.render_to_map(plain()).unwrap();
    assert_eq!(out.pages.into_entries(), vec![pair("/404", "missing")]);
}

#[test]
fn two_fallbacks_at_one_path_are_a_conflict() {
    let router = Router::new()
        .fallback_at("/docs", Page::new(page("one")))
        .unwrap()
        .fallback_at("/docs/", Page::new(page("two")))
        .unwrap();
    let result = router.render_to_map(RenderConfig::default());
    assert_eq!(result.err(), Some(RouterError::FallbackRouteConflict));
}

#[test]
fn redirects_get_no_pages_without_a_renderer() {
    let router = Router::new()
        .route("/", get(page("home")))
        .unwrap()
        .route("/old", redirect("/"))
        .unwrap();
    let out = router.render_to_map(plain()).unwrap();
    assert_eq!(out.pages.into_entries(), vec![pair("/", "home")]);
}

#[test]
fn redirects_get_pages_behind_the_routes() {
    let router = Router::new()
        .route("/old", redirect("/"))
        .unwrap()
        .route("/", get(page("home")))
        .unwrap()
        .fallback(page("missing"))
        .unwrap();
    let out = router.render_to_map(echo_targets()).unwrap();
    assert_eq!(
        out.pages.into_entries(),
        vec![pair("/", "home"), pair("/old", "to /"), pair("/404", "missing")]
    );
}

#[test]
fn the_built_in_redirect_page() {
    let expected = "<!DOCTYPE HTML>
<html lang=\"en\">
<head>
    <meta charset=\"UTF-8\">
    <meta http-equiv=\"refresh\" content=\"0; url=/new\">
    <meta name=\"viewport\" content=\"width=device-width, initial-scale=1.0\">
    <title>Page Redirection</title>
</head>
<body>
    <script>
        (function() {
            window.location.replace(\"/new\");
        })();
    </script>

    <p>Redirecting to <a href=\"/new\">/new</a>...</p>
</body>
</html>";
    assert_eq!(Redirect::base_redirect_page().render("/new"), expected);
    let router = Router::new().route("/old", redirect("/new")).unwrap();
    let out = router.render_to_map(RenderConfig::default()).unwrap();
    assert_eq!(out.pages.get("/old"), Some(&expected.to_owned()));
}

#[test]
fn a_chain_is_resolved_to_its_end() {
    let router = Router::new()
        .route("/a", redirect("/b"))
        .unwrap()
        .route("/b", redirect("/c"))
        .unwrap();
    let mut config = echo_targets();
    config.resolve_redirect_chains = true;
    let out = router.render_to_map(config).unwrap();
    assert_eq!(out.pages.into_entries(), vec![pair("/a", "to /c"), pair("/b", "to /c")]);
}

#[test]
fn a_chain_stays_as_declared_without_resolution() {
    let router = Router::new()
        .route("/a", redirect("/b"))
        .unwrap()
        .route("/b", redirect("/c"))
        .unwrap();
    let out = router.render_to_map(echo_targets()).unwrap();
    assert_eq!(out.pages.into_entries(), vec![pair("/a", "to /b"), pair("/b", "to /c")]);
}

#[test]
fn a_cycle_fails_the_render_when_chains_are_resolved() {
    let router = Router::new()
        .route("/a", redirect("/b"))
        .unwrap()
        .route("/b", redirect("/a"))
        .unwrap();
    let mut config = echo_targets();
    config.resolve_redirect_chains = true;
    assert_eq!(router.render_to_map(config).err(), Some(RouterError::RedirectCycle));
}

#[test]
fn a_cycle_is_rendered_as_declared_without_resolution() {
    let router = Router::new()
        .route("/a", redirect("/b"))
        .unwrap()
        .route("/b", redirect("/a"))
        .unwrap();
    let out = router.render_to_map(echo_targets()).unwrap();
    assert_eq!(out.pages.into_entries(), vec![pair("/a", "to /b"), pair("/b", "to /a")]);
}

#[test]
fn a_cycle_comes_before_a_fallback_conflict() {
    let router = Router::new()
        .route("/a", redirect("/a"))
        .unwrap()
        .route("/404", get(page("mine")))
        .unwrap()
        .fallback(page("missing"))
        .unwrap();
    let mut config = RenderConfig::default();
    config.resolve_redirect_chains = true;
    assert_eq!(router.render_to_map(config).err(), Some(RouterError::RedirectCycle));
}

#[test]
fn the_cloudflare_list_has_one_line_for_each_redirect() {
    let router = Router::new()
        .route("/old", redirect("/new"))
        .unwrap()
        .route("/a", redirect("/b"))
        .unwrap();
    let mut config = RenderConfig::default();
    config.redirect_lists.push(RedirectList::for_cloudflare_pages());
    let out = router.render_to_map(config).unwrap();
    assert_eq!(out.extra_files.into_entries(), vec![pair("_redirects", "/old /new\n/a /b")]);
}

#[test]
fn the_cloudflare_list_of_no_redirects_is_empty() {
    let mut config = RenderConfig::default();
    config.redirect_lists.push(RedirectList::for_cloudflare_pages());
    let out = Router::new().render_to_map(config).unwrap();
    assert_eq!(out.extra_files.into_entries(), vec![pair("_redirects", "")]);
}

#[test]
fn the_static_web_server_list_has_one_table_for_each_redirect() {
    let router = Router::new()
        .route("/old", redirect("/new"))
        .unwrap()
        .route("/a", redirect("/b"))
        .unwrap();
    let mut config = RenderConfig::default();
    config.redirect_lists.push(RedirectList::for_static_web_server());
    let out = router.render_to_map(config).unwrap();
    let expected = "[advanced]\n\n[[advanced.redirects]]\nsource = \"/old\"\ndestination = \"/new\"\nkind = 302\n\n[[advanced.redirects]]\nsource = \"/a\"\ndestination = \"/b\"\nkind = 302";
    assert_eq!(out.extra_files.into_entries(), vec![pair("config.toml", expected)]);
}

#[test]
fn redirect_lists_hold_the_redirects_as_declared() {
    let router = Router::new()
        .route("/a", redirect("/b"))
        .unwrap()
        .route("/b", redirect("/c"))
        .unwrap();
    let mut config = RenderConfig::default();
    config.resolve_redirect_chains = true;
    config.redirect_lists.push(RedirectList::for_cloudflare_pages());
    let out = router.render_to_map(config).unwrap();
    assert_eq!(out.extra_files.into_entries(), vec![pair("_redirects", "/a /b\n/b /c")]);
}

#[test]
fn a_redirect_list_of_ones_own() {
    let router = Router::new().route("/old", redirect("/new")).unwrap();
    let mut config = RenderConfig::default();
    config.redirect_lists.push(RedirectList {
        file_name: "count.txt",
        content_renderer: RedirectListRenderer::new(|redirects: Vec<Redirect>| {
            format!("{} {}", redirects.len(), redirects[0].target)
        }),
    });
    let out = router.render_to_map(config).unwrap();
    assert_eq!(out.extra_files.into_entries(), vec![pair("count.txt", "1 /new")]);
}

#[test]
fn the_sitemap_lists_each_route_below_the_origin() {
    let router = Router::new()
        .route("/", get(page("home")))
        .unwrap()
        .route("/about", get(page("about")))
        .unwrap();
    let mut config = RenderConfig::default();
    config.route_lists.push(RouteList::sitemap("https://x.test".to_owned()));
    let out = router.render_to_map(config).unwrap();
    let sitemap = out.extra_files.get("sitemap.xml").unwrap();
    assert!(sitemap.contains("<loc>https://x.test/</loc>"));
    assert!(sitemap.contains("<loc>https://x.test/about</loc>"));
    let expected = "<?xml version=\"1.0\" encoding=\"UTF-8\"?>\n<urlset xmlns=\"http://www.sitemaps.org/schemas/sitemap/0.9\">\n  <url>\n    <loc>https://x.test/</loc>\n  </url>\n  <url>\n    <loc>https://x.test/about</loc>\n  </url>\n</urlset>";
    assert_eq!(sitemap, expected);
}

#[test]
fn the_sitemap_leaves_out_redirects_and_fallback_pages() {
    let router = Router::new()
        .route("/", get(page("home")))
        .unwrap()
        .route("/old", redirect("/"))
        .unwrap()
        .fallback(page("missing"))
        .unwrap();
    let mut config = RenderConfig::default();
    config.route_lists.push(RouteList::sitemap("https://x.test".to_owned()));
    let out = router.render_to_map(config).unwrap();
    let expected = "<?xml version=\"1.0\" encoding=\"UTF-8\"?>\n<urlset xmlns=\"http://www.sitemaps.org/schemas/sitemap/0.9\">\n  <url>\n    <loc>https://x.test/</loc>\n  </url>\n</urlset>";
    assert_eq!(out.extra_files.get("sitemap.xml"), Some(&expected.to_owned()));
}

fn listing(file_name: &'static str, include_redirects: bool) -> RouteList {
    RouteList {
        file_name,
        content_renderer: RouteListRenderer::new(|routes: Vec<String>| routes.join(",")),
        include_redirects,
    }
}

#[test]
fn a_route_list_may_include_the_redirect_sources() {
    let router = Router::new()
        .route("/old", redirect("/"))
        .unwrap()
        .route("/", get(page("home")))
        .unwrap()
        .route("/about", get(page("about")))
        .unwrap();
    let mut config = RenderConfig::default();
    config.resolve_redirect_chains = true;
    config.route_lists.push(listing("with.txt", true));
    config.route_lists.push(listing("without.txt", false));
    let out = router.render_to_map(config).unwrap();
    assert_eq!(
        out.extra_files.into_entries(),
        vec![pair("with.txt", "/,/about,/old"), pair("without.txt", "/,/about")]
    );
}

#[test]
fn a_later_file_takes_the_place_of_an_earlier_one_of_the_same_name() {
    let router = Router::new()
        .route("/", get(page("home")))
        .unwrap()
        .route("/old", redirect("/new"))
        .unwrap();
    let mut config = RenderConfig::default();
    config.redirect_lists.push(RedirectList::for_static_web_server());
    config.redirect_lists.push(RedirectList::for_cloudflare_pages());
    config.redirect_lists.push(RedirectList {
        file_name: "config.toml",
        content_renderer: RedirectListRenderer::new(|_: Vec<Redirect>| "mine".to_owned()),
    });
    config.route_lists.push(listing("_redirects", false));
    let out = router.render_to_map(config).unwrap();
    assert_eq!(
        out.extra_files.into_entries(),
        vec![pair("config.toml", "mine"), pair("_redirects", "/")]
    );
}
