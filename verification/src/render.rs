//! Rendering: the plan of pages and extra files that a route table gives
//! with the settings of a render, and the contents that the plan yields.

use crate::chains::resolve_chains;
use crate::error::RouterError;
use crate::page::{Page, Producer};
use crate::path::{fallback_path, is_valid_path, place_fallback};
use crate::keyed::{
    distinct_keys, has_key, keys_overlap, lemma_has_key_join, lemma_same_keys_overlap, same_keys,
};
use crate::path_map::{keyed_by_text, PathMap};
use crate::plan::{
    fallback_pages, lemma_placed_stands_for, lemma_planned_pages_at_valid_paths, listed_routes,
    plan, redirect_list_files, redirect_pages, rendered_from, rendered_redirects,
    route_list_files, route_pages, stands_for, ContentSource, PlanSettings, RenderPlan,
};
use crate::redirects::{
    base_redirect_html, redirect_pairs, Redirect, RedirectList, RedirectListRenderer,
    RedirectPageRenderer,
};
use crate::router::Router;
use crate::routes::{RouteList, RouteListRenderer};
use crate::text::texts_of;
use std::rc::Rc;
use vstd::prelude::*;
use vstd::string::*;

verus! {

/// The pages and extra files of a site before they are rendered: each path
/// or file name with the deferred content. Every page stands at a valid
/// path.
pub struct RenderMap {
    pages: PathMap<Page>,
    extra_files: PathMap<Page>,
}

/// The rendered site: the content of each page and extra file.
pub struct OutputMap {
    /// The content of the pages by path.
    pub pages: PathMap<String>,
    /// The content of the extra files by name.
    pub extra_files: PathMap<String>,
}

/// The settings of a render.
pub struct RenderConfig {
    /// The name of fallback pages.
    pub fallback_page_name: String,
    /// Whether chains of redirects are resolved to their final targets.
    pub resolve_redirect_chains: bool,
    /// What renders the page for a redirect. Without it no pages are
    /// rendered for redirects.
    pub redirect_page_renderer: Option<RedirectPageRenderer>,
    /// The list files to render from the redirects.
    pub redirect_lists: Vec<RedirectList>,
    /// The list files to render from the route paths.
    pub route_lists: Vec<RouteList>,
}

impl View for RenderConfig {
    type V = PlanSettings;

    open spec fn view(&self) -> PlanSettings {
        PlanSettings {
            fallback_page_name: self.fallback_page_name@,
            resolve_redirect_chains: self.resolve_redirect_chains,
            redirect_page_renderer: self.redirect_page_renderer,
            redirect_lists: self.redirect_lists@,
            route_lists: self.route_lists@,
        }
    }
}

impl Default for RenderConfig {
    /// The default settings: fallback pages are named `404`, redirect chains
    /// stay as declared, redirects get the built-in redirect page, and no
    /// list files are rendered.
    fn default() -> (config: RenderConfig)
        ensures
            config.fallback_page_name@ == "404"@,
            !config.resolve_redirect_chains,
            config.redirect_page_renderer is Some,
            forall|target: Seq<char>, html: Seq<char>|
                config.redirect_page_renderer->0.renders(target, html) <==> html
                    == base_redirect_html(target),
            config.redirect_lists@.len() == 0,
            config.route_lists@.len() == 0,
    {
        RenderConfig {
            fallback_page_name: "404".to_owned(),
            resolve_redirect_chains: false,
            redirect_page_renderer: Some(Redirect::base_redirect_page()),
            redirect_lists: Vec::new(),
            route_lists: Vec::new(),
        }
    }
}

/// The page for a redirect: the redirect page renderer, to be run on the
/// target.
struct RedirectLanding {
    renderer: Rc<RedirectPageRenderer>,
    target: String,
}

impl Producer for RedirectLanding {
    closed spec fn ready(&self) -> bool {
        true
    }

    closed spec fn yields(&self, content: Seq<char>) -> bool {
        self.renderer.renders(self.target@, content)
    }

    fn produce(self: Box<Self>) -> (content: String) {
        self.renderer.render(self.target.as_str())
    }
}

/// A list file of redirects: the renderer, to be run on the redirects.
struct RedirectListFile {
    renderer: RedirectListRenderer,
    redirects: Vec<Redirect>,
}

impl Producer for RedirectListFile {
    closed spec fn ready(&self) -> bool {
        true
    }

    closed spec fn yields(&self, content: Seq<char>) -> bool {
        self.renderer.renders(redirect_pairs(self.redirects@), content)
    }

    fn produce(self: Box<Self>) -> (content: String) {
        let file = *self;
        file.renderer.render(file.redirects)
    }
}

/// A list file of routes: the renderer, to be run on the route paths.
struct RouteListFile {
    renderer: RouteListRenderer,
    routes: Vec<String>,
}

impl Producer for RouteListFile {
    closed spec fn ready(&self) -> bool {
        true
    }

    closed spec fn yields(&self, content: Seq<char>) -> bool {
        self.renderer.renders(texts_of(self.routes@), content)
    }

    fn produce(self: Box<Self>) -> (content: String) {
        let file = *self;
        file.renderer.render(file.routes)
    }
}

/// The fallback pages at the paths below their scopes.
spec fn placed_fallbacks(fallbacks: Seq<(Seq<char>, Page)>, page_name: Seq<char>) -> Seq<
    (Seq<char>, Page),
> {
    Seq::new(
        fallbacks.len(),
        |i: int| (fallback_path(fallbacks[i].0, page_name), fallbacks[i].1),
    )
}

/// Returns the redirects as records for a list renderer.
fn redirect_records(redirects: &PathMap<String>) -> (records: Vec<Redirect>)
    ensures
        redirect_pairs(records@) == redirects@,
{
    let mut records: Vec<Redirect> = Vec::new();
    let mut index: usize = 0;
    while index < redirects.len()
        invariant
            index <= redirects@.len(),
            records@.len() == index,
            forall|i: int| 0 <= i < index ==> (#[trigger] records@[i])@ == redirects@[i],
        decreases redirects@.len() - index,
    {
        let source = redirects.key_at(index).clone();
        let target = redirects.value_at(index).clone();
        records.push(Redirect { source, target });
        index = index + 1;
    }
    proof {
        assert(redirect_pairs(records@) =~= redirects@);
    }
    records
}

/// Puts a page for each redirect behind the pages of the routes.
fn with_redirect_pages(
    routes: PathMap<Page>,
    redirects: &PathMap<String>,
    renderer: Option<RedirectPageRenderer>,
) -> (pages: PathMap<Page>)
    requires
        !keys_overlap(routes@, redirects@),
    ensures
        stands_for(pages@, route_pages(routes@) + redirect_pages(redirects@, renderer)),
{
    let ghost served = route_pages(routes@) + redirect_pages(redirects@, renderer);
    match renderer {
        None => {
            proof {
                assert(served =~= route_pages(routes@));
            }
            routes
        },
        Some(renderer) => {
            let ghost kept = routes@;
            let shared = Rc::new(renderer);
            let mut entries = routes.into_entries();
            let count: usize = redirects.len();
            let mut index: usize = 0;
            while index < count
                invariant
                    index <= count,
                    count == redirects@.len(),
                    *shared == renderer,
                    served == route_pages(kept) + redirect_pages(redirects@, Some(renderer)),
                    entries@.len() == kept.len() + index,
                    forall|i: int|
                        0 <= i < kept.len() ==> (#[trigger] keyed_by_text(entries@)[i]) == kept[i],
                    forall|i: int|
                        0 <= i < index ==> (#[trigger] keyed_by_text(entries@)[kept.len() + i]).0
                            == redirects@[i].0 && forall|content: Seq<char>|
                            keyed_by_text(entries@)[kept.len() + i].1.yields(content)
                                <==> renderer.renders(redirects@[i].1, content),
                decreases count - index,
            {
                let landing = RedirectLanding {
                    renderer: Rc::clone(&shared),
                    target: redirects.value_at(index).clone(),
                };
                let page = Page::from_producer(landing);
                let ghost before = keyed_by_text(entries@);
                entries.push((redirects.key_at(index).clone(), page));
                proof {
                    let after = keyed_by_text(entries@);
                    assert forall|i: int| 0 <= i < kept.len() implies (#[trigger] after[i])
                        == kept[i] by {
                        assert(after[i] == before[i]);
                    }
                    assert forall|i: int| 0 <= i < index + 1 implies (#[trigger] after[kept.len()
                        + i]).0 == redirects@[i].0 && forall|content: Seq<char>|
                        after[kept.len() + i].1.yields(content) <==> renderer.renders(
                            redirects@[i].1,
                            content,
                        ) by {
                        if i < index {
                            assert(after[kept.len() + i] == before[kept.len() + i]);
                        }
                    }
                }
                index = index + 1;
            }
            proof {
                let made = keyed_by_text(entries@);
                assert forall|i: int| 0 <= i < made.len() implies (#[trigger] made[i]).0
                    == served[i].0 && forall|content: Seq<char>|
                    made[i].1.yields(content) <==> served[i].1.yields(content) by {
                    if i < kept.len() {
                        assert(made[i] == kept[i]);
                    } else {
                        assert(made[kept.len() + (i - kept.len())].0 == redirects@[i
                            - kept.len()].0);
                    }
                }
                assert forall|i: int, j: int| 0 <= i < j < made.len() implies (#[trigger] made[i]).0
                    != (#[trigger] made[j]).0 by {
                    if j < kept.len() {
                        assert(made[i] == kept[i]);
                        assert(made[j] == kept[j]);
                    } else if i >= kept.len() {
                        assert(made[kept.len() + (i - kept.len())].0 == redirects@[i
                            - kept.len()].0);
                        assert(made[kept.len() + (j - kept.len())].0 == redirects@[j
                            - kept.len()].0);
                    } else {
                        assert(made[i] == kept[i]);
                        assert(made[kept.len() + (j - kept.len())].0 == redirects@[j
                            - kept.len()].0);
                        if made[i].0 == made[j].0 {
                            assert(has_key(kept, redirects@[j - kept.len()].0));
                        }
                    }
                }
            }
            PathMap::from_entries(entries)
        },
    }
}

/// Puts each fallback page at the path below its scope, behind the other
/// pages. Fails with `FallbackRouteConflict` if a page has that path
/// already.
fn with_fallback_pages(pages: PathMap<Page>, fallbacks: PathMap<Page>, page_name: &str) -> (result:
    Result<PathMap<Page>, RouterError>)
    ensures
        result is Ok <==> !keys_overlap(pages@, placed_fallbacks(fallbacks@, page_name@))
            && distinct_keys(placed_fallbacks(fallbacks@, page_name@)),
        result matches Ok(all) ==> all@ == pages@ + placed_fallbacks(fallbacks@, page_name@),
        result matches Err(error) ==> error == RouterError::FallbackRouteConflict,
{
    let ghost served = pages@;
    let ghost added = placed_fallbacks(fallbacks@, page_name@);
    let ghost declared = fallbacks@;
    let mut all = pages;
    let entries = fallbacks.into_entries();
    for entry in rest: entries.into_iter()
        invariant
            rest.seq().len() == declared.len(),
            keyed_by_text(rest.seq()) == declared,
            declared == fallbacks@,
            served == pages@,
            added == placed_fallbacks(declared, page_name@),
            all@ == served + added.take(rest.index()),
            forall|i: int| 0 <= i < rest.index() ==> !has_key(served, (#[trigger] added[i]).0),
            forall|i: int, j: int|
                0 <= i < j < rest.index() ==> (#[trigger] added[i]).0 != (#[trigger] added[j]).0,
    {
        let ghost at = rest.index();
        assert(keyed_by_text(rest.seq())[at] == declared[at]);
        let (scope, page) = entry;
        let path = place_fallback(scope.as_str(), page_name);
        assert(path@ == added[at].0);
        if all.contains_key(path.as_str()) {
            proof {
                lemma_has_key_join(served, added.take(at), path@);
                if has_key(served, path@) {
                    assert(has_key(served, added[at].0));
                } else {
                    let i = choose|i: int|
                        0 <= i < added.take(at).len() && (#[trigger] added.take(at)[i]).0 == path@;
                    assert(added[i].0 == added[at].0);
                }
            }
            return Err(RouterError::FallbackRouteConflict);
        }
        proof {
            lemma_has_key_join(served, added.take(at), path@);
            assert forall|i: int, j: int| 0 <= i < j < at + 1 implies (#[trigger] added[i]).0 != (
            #[trigger] added[j]).0 by {
                if j == at {
                    if added[i].0 == added[j].0 {
                        assert(added.take(at)[i].0 == path@);
                    }
                }
            }
            assert(served + added.take(at + 1) =~= (served + added.take(at)).push(
                (path@, page),
            ));
        }
        all = all.insert(path, page);
    }
    proof {
        assert(added.take(declared.len() as int) =~= added);
        if keys_overlap(served, added) {
            let i = choose|i: int| 0 <= i < added.len() && has_key(served, (#[trigger] added[i]).0);
            assert(!has_key(served, added[i].0));
        }
    }
    Ok(all)
}

/// Makes the file of each redirect list, rendered from `redirects`.
fn with_redirect_lists(lists: Vec<RedirectList>, redirects: &PathMap<String>) -> (files: PathMap<
    Page,
>)
    ensures
        stands_for(files@, redirect_list_files(redirects@, lists@, lists@.len())),
{
    let mut files: PathMap<Page> = PathMap::new();
    for list in rest: lists.into_iter()
        invariant
            rest.seq() == lists@,
            stands_for(files@, redirect_list_files(redirects@, lists@, rest.index() as nat)),
    {
        let ghost planned = redirect_list_files(redirects@, lists@, rest.index() as nat);
        let ghost source = ContentSource::RedirectList(list.content_renderer, redirects@);
        let RedirectList { file_name, content_renderer } = list;
        let file = RedirectListFile {
            renderer: content_renderer,
            redirects: redirect_records(redirects),
        };
        let page = Page::from_producer(file);
        proof {
            lemma_placed_stands_for(files@, planned, file_name@, page, source);
        }
        files = files.insert(file_name.to_owned(), page);
    }
    files
}

/// Adds the file of each route list, rendered from `route_paths` and, if
/// the list asks for them, the sources of `redirects`.
fn with_route_lists(
    files: PathMap<Page>,
    lists: Vec<RouteList>,
    route_paths: &Vec<String>,
    redirects: &PathMap<String>,
    Ghost(planned): Ghost<Seq<(Seq<char>, ContentSource)>>,
) -> (all: PathMap<Page>)
    requires
        stands_for(files@, planned),
    ensures
        stands_for(
            all@,
            route_list_files(planned, texts_of(route_paths@), redirects@, lists@, lists@.len()),
        ),
{
    let mut all = files;
    for list in rest: lists.into_iter()
        invariant
            rest.seq() == lists@,
            stands_for(
                all@,
                route_list_files(
                    planned,
                    texts_of(route_paths@),
                    redirects@,
                    lists@,
                    rest.index() as nat,
                ),
            ),
    {
        let ghost so_far = route_list_files(
            planned,
            texts_of(route_paths@),
            redirects@,
            lists@,
            rest.index() as nat,
        );
        let ghost listed = listed_routes(
            texts_of(route_paths@),
            redirects@,
            list.include_redirects,
        );
        let ghost source = ContentSource::RouteList(list.content_renderer, listed);
        let RouteList { file_name, content_renderer, include_redirects } = list;
        let mut routes = route_paths.clone();
        if include_redirects {
            let mut sources = redirects.keys();
            let ghost first = routes@;
            let ghost second = sources@;
            routes.append(&mut sources);
            proof {
                assert(texts_of(first + second) =~= texts_of(first) + texts_of(second));
            }
        }
        proof {
            assert(texts_of(routes@) =~= listed);
        }
        let file = RouteListFile { renderer: content_renderer, routes };
        let page = Page::from_producer(file);
        proof {
            lemma_placed_stands_for(all@, so_far, file_name@, page, source);
        }
        all = all.insert(file_name.to_owned(), page);
    }
    all
}

/// Runs every deferred page and returns the contents.
fn produce_all(pages: PathMap<Page>) -> (contents: PathMap<String>)
    ensures
        contents@.len() == pages@.len(),
        forall|i: int|
            0 <= i < contents@.len() ==> (#[trigger] contents@[i]).0 == pages@[i].0
                && pages@[i].1.yields(contents@[i].1),
{
    let ghost deferred = pages@;
    let entries = pages.into_entries();
    let mut contents: Vec<(String, String)> = Vec::new();
    for entry in rest: entries.into_iter()
        invariant
            rest.seq().len() == deferred.len(),
            keyed_by_text(rest.seq()) == deferred,
            contents@.len() == rest.index(),
            forall|i: int|
                0 <= i < contents@.len() ==> (#[trigger] contents@[i]).0@ == deferred[i].0
                    && deferred[i].1.yields(contents@[i].1@),
    {
        assert(keyed_by_text(rest.seq())[rest.index()] == deferred[rest.index()]);
        let (path, page) = entry;
        let content = page.produce();
        contents.push((path, content));
    }
    proof {
        let made = keyed_by_text(contents@);
        assert forall|i: int, j: int| 0 <= i < j < made.len() implies (#[trigger] made[i]).0 != (
        #[trigger] made[j]).0 by {
            assert(contents@[i].0@ == deferred[i].0);
            assert(contents@[j].0@ == deferred[j].0);
        }
        assert forall|i: int| 0 <= i < made.len() implies (#[trigger] made[i]).0 == deferred[i].0
            && deferred[i].1.yields(made[i].1) by {
            assert(contents@[i].0@ == deferred[i].0);
        }
    }
    PathMap::from_entries(contents)
}

impl RenderMap {
    #[verifier::type_invariant]
    spec fn at_valid_paths(&self) -> bool {
        forall|i: int| 0 <= i < self.pages@.len() ==> is_valid_path((#[trigger] self.pages@[i]).0)
    }

    /// The pages by path, in the order in which they are rendered.
    pub closed spec fn pages(&self) -> Seq<(Seq<char>, Page)> {
        self.pages@
    }

    /// The extra files by name, in the order in which they are rendered.
    pub closed spec fn extra_files(&self) -> Seq<(Seq<char>, Page)> {
        self.extra_files@
    }

    /// Gives up the pages by path and the extra files by name.
    pub fn into_parts(self) -> (parts: (PathMap<Page>, PathMap<Page>))
        ensures
            parts.0@ == self.pages(),
            parts.1@ == self.extra_files(),
            forall|i: int|
                0 <= i < self.pages().len() ==> is_valid_path((#[trigger] self.pages()[i]).0),
    {
        proof {
            use_type_invariant(&self);
        }
        (self.pages, self.extra_files)
    }
}

/// Whether a preparation ended as the plan says: with deferred pages and
/// files that stand for the planned ones, or with that error.
pub open spec fn prepared(
    result: Result<RenderMap, RouterError>,
    expected: Result<RenderPlan, RouterError>,
) -> bool {
    match expected {
        Ok(planned) => result is Ok && stands_for(result->Ok_0.pages(), planned.pages)
            && stands_for(result->Ok_0.extra_files(), planned.extra_files),
        Err(error) => result is Err && result->Err_0 == error,
    }
}

/// Whether a render ended as the plan says: with a content for each planned
/// page and file that its source yields, or with that error.
pub open spec fn rendered(
    result: Result<OutputMap, RouterError>,
    expected: Result<RenderPlan, RouterError>,
) -> bool {
    match expected {
        Ok(planned) => result is Ok && rendered_from(result->Ok_0.pages@, planned.pages)
            && rendered_from(result->Ok_0.extra_files@, planned.extra_files),
        Err(error) => result is Err && result->Err_0 == error,
    }
}

impl Router {
    /// Plans the render of the table with the settings `config`: the pages of
    /// the routes, a page for each redirect if a redirect page renderer is
    /// set, the fallback pages, and the list files, all with their content
    /// deferred. Fails with `RedirectCycle` if redirect chains are to be
    /// resolved and one never ends, else with `FallbackRouteConflict` if a
    /// fallback page comes to stand at the path of another page.
    pub fn prepare_map(self, config: RenderConfig) -> (result: Result<RenderMap, RouterError>)
        ensures
            prepared(result, plan(self@, config@)),
    {
        let ghost table = self@;
        let ghost settings = config@;
        let (routes, declared, fallbacks) = self.into_parts();
        let RenderConfig {
            fallback_page_name,
            resolve_redirect_chains,
            redirect_page_renderer,
            redirect_lists,
            route_lists,
        } = config;
        let resolved: Option<PathMap<String>> = if resolve_redirect_chains {
            match resolve_chains(&declared) {
                Ok(flat) => Some(flat),
                Err(error) => {
                    return Err(error);
                },
            }
        } else {
            None
        };
        let ghost redirects = rendered_redirects(table, settings)->Ok_0;
        let ghost served = route_pages(table.routes) + redirect_pages(
            redirects,
            settings.redirect_page_renderer,
        );
        let route_paths = routes.keys();
        proof {
            assert(same_keys(redirects, table.redirects));
            assert(same_keys(table.routes, table.routes));
            lemma_same_keys_overlap(table.routes, table.routes, redirects, table.redirects);
        }
        let pages = match &resolved {
            Some(flat) => with_redirect_pages(routes, flat, redirect_page_renderer),
            None => with_redirect_pages(routes, &declared, redirect_page_renderer),
        };
        let ghost placed = placed_fallbacks(table.fallbacks, settings.fallback_page_name);
        let ghost planned = fallback_pages(table.fallbacks, settings.fallback_page_name);
        let ghost before = pages@;
        proof {
            assert(same_keys(before, served));
            assert(same_keys(placed, planned));
            lemma_same_keys_overlap(before, served, placed, planned);
            lemma_same_keys_overlap(placed, planned, placed, planned);
        }
        let pages = match with_fallback_pages(pages, fallbacks, fallback_page_name.as_str()) {
            Ok(all) => all,
            Err(error) => {
                return Err(error);
            },
        };
        proof {
            let all = served + planned;
            assert forall|i: int| 0 <= i < pages@.len() implies (#[trigger] pages@[i]).0
                == all[i].0 && forall|content: Seq<char>|
                pages@[i].1.yields(content) <==> all[i].1.yields(content) by {
                if i < before.len() {
                    assert(pages@[i] == before[i]);
                } else {
                    assert(pages@[i] == placed[i - before.len()]);
                }
            }
            lemma_planned_pages_at_valid_paths(table, settings);
            assert forall|i: int| 0 <= i < pages@.len() implies is_valid_path(
                (#[trigger] pages@[i]).0,
            ) by {
                assert(pages@[i].0 == all[i].0);
            }
        }
        let files = with_redirect_lists(redirect_lists, &declared);
        let ghost listed = redirect_list_files(
            table.redirects,
            settings.redirect_lists,
            settings.redirect_lists.len(),
        );
        let extra_files = with_route_lists(
            files,
            route_lists,
            &route_paths,
            &declared,
            Ghost(listed),
        );
        Ok(RenderMap { pages, extra_files })
    }

    /// Renders the table with the settings `config` into the content of each
    /// page and extra file. Fails as the planning does. Every page of the
    /// result stands at a valid path.
    pub fn render_to_map(self, config: RenderConfig) -> (result: Result<OutputMap, RouterError>)
        ensures
            rendered(result, plan(self@, config@)),
            result matches Ok(output) ==> forall|i: int|
                0 <= i < output.pages@.len() ==> is_valid_path((#[trigger] output.pages@[i]).0),
    {
        match self.prepare_map(config) {
            Ok(map) => {
                let (pages, extra_files) = map.into_parts();
                Ok(OutputMap { pages: produce_all(pages), extra_files: produce_all(extra_files) })
            },
            Err(error) => Err(error),
        }
    }
}

} // verus!
