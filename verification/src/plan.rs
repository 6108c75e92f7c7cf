//! What rendering a route table produces, as a mathematical value: the
//! pages and extra files of the site, each with the source of its content.

use crate::chains::resolve;
use crate::error::RouterError;
use crate::page::Page;
use crate::path::{fallback_path, is_valid_path};
use crate::keyed::{
    distinct_keys, has_key, keys_of, keys_overlap, lemma_joined_distinct, lemma_placed_distinct,
    lemma_placed_same_keys, placed, position_of, same_keys,
};
use crate::redirects::{RedirectList, RedirectListRenderer, RedirectPageRenderer};
use crate::routes::{RouteList, RouteListRenderer};
use crate::table::PathTable;
use vstd::prelude::*;

verus! {

/// Where the content of a page or file of the site comes from.
pub enum ContentSource {
    /// A page of the table: of a route, or a fallback page.
    Deferred(Page),
    /// The page for a redirect to a target, from the redirect page renderer.
    RedirectPage(RedirectPageRenderer, Seq<char>),
    /// A list file rendered from redirects.
    RedirectList(RedirectListRenderer, Seq<(Seq<char>, Seq<char>)>),
    /// A list file rendered from route paths.
    RouteList(RouteListRenderer, Seq<Seq<char>>),
}

impl ContentSource {
    /// Whether rendering from this source may give `content`.
    pub open spec fn yields(self, content: Seq<char>) -> bool {
        match self {
            ContentSource::Deferred(page) => page.yields(content),
            ContentSource::RedirectPage(renderer, target) => renderer.renders(target, content),
            ContentSource::RedirectList(renderer, redirects) => renderer.renders(
                redirects,
                content,
            ),
            ContentSource::RouteList(renderer, routes) => renderer.renders(routes, content),
        }
    }
}

/// What is to be rendered: the pages by path and the extra files by name,
/// each with the source of its content.
pub struct RenderPlan {
    pub pages: Seq<(Seq<char>, ContentSource)>,
    pub extra_files: Seq<(Seq<char>, ContentSource)>,
}

/// The settings of a render, as far as the plan depends on them.
pub struct PlanSettings {
    /// The name of fallback pages.
    pub fallback_page_name: Seq<char>,
    /// Whether redirect chains are resolved before pages are rendered for
    /// them.
    pub resolve_redirect_chains: bool,
    /// What renders the page for a redirect; without it no such pages are
    /// rendered.
    pub redirect_page_renderer: Option<RedirectPageRenderer>,
    /// The list files to render from the redirects.
    pub redirect_lists: Seq<RedirectList>,
    /// The list files to render from the route paths.
    pub route_lists: Seq<RouteList>,
}

/// The redirects for which pages are rendered: as declared, or resolved.
pub open spec fn rendered_redirects(table: PathTable, settings: PlanSettings) -> Result<
    Seq<(Seq<char>, Seq<char>)>,
    RouterError,
> {
    if settings.resolve_redirect_chains {
        resolve(table.redirects)
    } else {
        Ok(table.redirects)
    }
}

/// The pages of the routes, each from the page of its route.
pub open spec fn route_pages(routes: Seq<(Seq<char>, Page)>) -> Seq<(Seq<char>, ContentSource)> {
    Seq::new(routes.len(), |i: int| (routes[i].0, ContentSource::Deferred(routes[i].1)))
}

/// The pages of the redirects: one at each source, for its target. Without
/// a renderer there are none.
pub open spec fn redirect_pages(
    redirects: Seq<(Seq<char>, Seq<char>)>,
    renderer: Option<RedirectPageRenderer>,
) -> Seq<(Seq<char>, ContentSource)> {
    match renderer {
        Some(renderer) => Seq::new(
            redirects.len(),
            |i: int| (redirects[i].0, ContentSource::RedirectPage(renderer, redirects[i].1)),
        ),
        None => Seq::empty(),
    }
}

/// The fallback pages, each at the path below its scope.
pub open spec fn fallback_pages(fallbacks: Seq<(Seq<char>, Page)>, page_name: Seq<char>) -> Seq<
    (Seq<char>, ContentSource),
> {
    Seq::new(
        fallbacks.len(),
        |i: int|
            (fallback_path(fallbacks[i].0, page_name), ContentSource::Deferred(fallbacks[i].1)),
    )
}

/// The pages of the site: those of the routes, then those of the redirects,
/// then the fallback pages. A fallback page must not come to stand at a path
/// that another page has.
pub open spec fn planned_pages(table: PathTable, settings: PlanSettings) -> Result<
    Seq<(Seq<char>, ContentSource)>,
    RouterError,
> {
    match rendered_redirects(table, settings) {
        Err(error) => Err(error),
        Ok(redirects) => {
            let served = route_pages(table.routes) + redirect_pages(
                redirects,
                settings.redirect_page_renderer,
            );
            let fallbacks = fallback_pages(table.fallbacks, settings.fallback_page_name);
            if keys_overlap(served, fallbacks) || !distinct_keys(fallbacks) {
                Err(RouterError::FallbackRouteConflict)
            } else {
                Ok(served + fallbacks)
            }
        },
    }
}

/// The route paths that a route list file is rendered from: the paths of
/// the routes and, if asked for, the sources of the redirects behind them.
pub open spec fn listed_routes(
    route_paths: Seq<Seq<char>>,
    redirects: Seq<(Seq<char>, Seq<char>)>,
    include_redirects: bool,
) -> Seq<Seq<char>> {
    if include_redirects {
        route_paths + keys_of(redirects)
    } else {
        route_paths
    }
}

/// The files of the first `count` redirect lists, each rendered from
/// `redirects`. A later file takes the place of an earlier one of the same
/// name.
pub open spec fn redirect_list_files(
    redirects: Seq<(Seq<char>, Seq<char>)>,
    lists: Seq<RedirectList>,
    count: nat,
) -> Seq<(Seq<char>, ContentSource)>
    recommends
        count <= lists.len(),
    decreases count,
{
    if count == 0 {
        Seq::empty()
    } else {
        let list = lists[count - 1];
        placed(
            redirect_list_files(redirects, lists, (count - 1) as nat),
            list.file_name@,
            ContentSource::RedirectList(list.content_renderer, redirects),
        )
    }
}

/// `files` and the files of the first `count` route lists, each rendered
/// from `route_paths` and, if it asks for them, the sources of `redirects`.
/// A later file takes the place of an earlier one of the same name.
pub open spec fn route_list_files(
    files: Seq<(Seq<char>, ContentSource)>,
    route_paths: Seq<Seq<char>>,
    redirects: Seq<(Seq<char>, Seq<char>)>,
    lists: Seq<RouteList>,
    count: nat,
) -> Seq<(Seq<char>, ContentSource)>
    recommends
        count <= lists.len(),
    decreases count,
{
    if count == 0 {
        files
    } else {
        let list = lists[count - 1];
        placed(
            route_list_files(files, route_paths, redirects, lists, (count - 1) as nat),
            list.file_name@,
            ContentSource::RouteList(
                list.content_renderer,
                listed_routes(route_paths, redirects, list.include_redirects),
            ),
        )
    }
}

/// The extra files of the site: one for each redirect list, then one for
/// each route list, rendered from the redirects and routes as they were
/// declared.
pub open spec fn planned_files(table: PathTable, settings: PlanSettings) -> Seq<
    (Seq<char>, ContentSource),
> {
    route_list_files(
        redirect_list_files(
            table.redirects,
            settings.redirect_lists,
            settings.redirect_lists.len(),
        ),
        keys_of(table.routes),
        table.redirects,
        settings.route_lists,
        settings.route_lists.len(),
    )
}

/// What rendering `table` with `settings` is to produce.
pub open spec fn plan(table: PathTable, settings: PlanSettings) -> Result<RenderPlan, RouterError> {
    match planned_pages(table, settings) {
        Err(error) => Err(error),
        Ok(pages) => Ok(RenderPlan { pages, extra_files: planned_files(table, settings) }),
    }
}

/// Whether deferred pages stand for `planned`: the same paths in the same
/// order, each page yielding what its source yields.
pub open spec fn stands_for(
    deferred: Seq<(Seq<char>, Page)>,
    planned: Seq<(Seq<char>, ContentSource)>,
) -> bool {
    &&& deferred.len() == planned.len()
    &&& forall|i: int|
        0 <= i < deferred.len() ==> (#[trigger] deferred[i]).0 == planned[i].0 && forall|
            content: Seq<char>,
        |
            deferred[i].1.yields(content) <==> planned[i].1.yields(content)
}

/// Whether `rendered` is a rendering of `planned`: the same paths in the
/// same order, each with a content that its source yields.
pub open spec fn rendered_from(
    rendered: Seq<(Seq<char>, Seq<char>)>,
    planned: Seq<(Seq<char>, ContentSource)>,
) -> bool {
    &&& rendered.len() == planned.len()
    &&& forall|i: int|
        0 <= i < rendered.len() ==> (#[trigger] rendered[i]).0 == planned[i].0 && planned[i].1.yields(
            rendered[i].1,
        )
}

/// The pages planned for a well-formed table stand at valid paths.
pub proof fn lemma_planned_pages_at_valid_paths(table: PathTable, settings: PlanSettings)
    requires
        table.wf(),
        planned_pages(table, settings) is Ok,
    ensures
        forall|i: int|
            0 <= i < planned_pages(table, settings)->Ok_0.len() ==> is_valid_path(
                (#[trigger] planned_pages(table, settings)->Ok_0[i]).0,
            ),
{
    let pages = planned_pages(table, settings)->Ok_0;
    let redirects = rendered_redirects(table, settings)->Ok_0;
    let routed = route_pages(table.routes);
    let landing = redirect_pages(redirects, settings.redirect_page_renderer);
    let fallbacks = fallback_pages(table.fallbacks, settings.fallback_page_name);
    assert forall|i: int| 0 <= i < pages.len() implies is_valid_path((#[trigger] pages[i]).0) by {
        if i < routed.len() {
            assert(is_valid_path(table.routes[i].0));
        } else if i < routed.len() + landing.len() {
            let at = i - routed.len();
            assert(landing[at].0 == table.redirects[at].0);
            assert(is_valid_path(table.redirects[at].0));
        } else {
            let at = i - routed.len() - landing.len();
            assert(pages[i] == fallbacks[at]);
            assert(is_valid_path(table.fallbacks[at].0));
        }
    }
}

/// No two pages planned for a well-formed table stand at the same path.
pub proof fn lemma_planned_pages_at_distinct_paths(table: PathTable, settings: PlanSettings)
    requires
        table.wf(),
        planned_pages(table, settings) is Ok,
    ensures
        distinct_keys(planned_pages(table, settings)->Ok_0),
{
    let redirects = rendered_redirects(table, settings)->Ok_0;
    let routed = route_pages(table.routes);
    let landing = redirect_pages(redirects, settings.redirect_page_renderer);
    let fallbacks = fallback_pages(table.fallbacks, settings.fallback_page_name);
    assert(distinct_keys(routed)) by {
        assert forall|i: int, j: int| 0 <= i < j < routed.len() implies (#[trigger] routed[i]).0
            != (#[trigger] routed[j]).0 by {
            assert(table.routes[i].0 != table.routes[j].0);
        }
    }
    assert(distinct_keys(landing)) by {
        assert forall|i: int, j: int| 0 <= i < j < landing.len() implies (#[trigger] landing[i]).0
            != (#[trigger] landing[j]).0 by {
            assert(table.redirects[i].0 != table.redirects[j].0);
        }
    }
    if keys_overlap(routed, landing) {
        let i = choose|i: int| 0 <= i < landing.len() && has_key(routed, (#[trigger] landing[i]).0);
        let j = choose|j: int| 0 <= j < routed.len() && (#[trigger] routed[j]).0 == landing[i].0;
        assert(table.routes[j].0 == table.redirects[i].0);
        assert(has_key(table.routes, table.redirects[i].0));
    }
    lemma_joined_distinct(routed, landing);
    lemma_joined_distinct(routed + landing, fallbacks);
}

/// No two extra files planned have the same name.
pub proof fn lemma_planned_files_under_distinct_names(table: PathTable, settings: PlanSettings)
    ensures
        distinct_keys(planned_files(table, settings)),
{
    let listed = redirect_list_files(
        table.redirects,
        settings.redirect_lists,
        settings.redirect_lists.len(),
    );
    lemma_redirect_list_files_distinct(
        table.redirects,
        settings.redirect_lists,
        settings.redirect_lists.len(),
    );
    lemma_route_list_files_distinct(
        listed,
        keys_of(table.routes),
        table.redirects,
        settings.route_lists,
        settings.route_lists.len(),
    );
}

proof fn lemma_redirect_list_files_distinct(
    redirects: Seq<(Seq<char>, Seq<char>)>,
    lists: Seq<RedirectList>,
    count: nat,
)
    ensures
        distinct_keys(redirect_list_files(redirects, lists, count)),
    decreases count,
{
    if count > 0 {
        let list = lists[count - 1];
        lemma_redirect_list_files_distinct(redirects, lists, (count - 1) as nat);
        lemma_placed_distinct(
            redirect_list_files(redirects, lists, (count - 1) as nat),
            list.file_name@,
            ContentSource::RedirectList(list.content_renderer, redirects),
        );
    }
}

proof fn lemma_route_list_files_distinct(
    files: Seq<(Seq<char>, ContentSource)>,
    route_paths: Seq<Seq<char>>,
    redirects: Seq<(Seq<char>, Seq<char>)>,
    lists: Seq<RouteList>,
    count: nat,
)
    requires
        distinct_keys(files),
    ensures
        distinct_keys(route_list_files(files, route_paths, redirects, lists, count)),
    decreases count,
{
    if count > 0 {
        let list = lists[count - 1];
        lemma_route_list_files_distinct(files, route_paths, redirects, lists, (count - 1) as nat);
        lemma_placed_distinct(
            route_list_files(files, route_paths, redirects, lists, (count - 1) as nat),
            list.file_name@,
            ContentSource::RouteList(
                list.content_renderer,
                listed_routes(route_paths, redirects, list.include_redirects),
            ),
        );
    }
}

/// Placing a page and a source that yield the same under the same name
/// keeps deferred pages standing for what is planned.
pub proof fn lemma_placed_stands_for(
    deferred: Seq<(Seq<char>, Page)>,
    planned: Seq<(Seq<char>, ContentSource)>,
    name: Seq<char>,
    page: Page,
    source: ContentSource,
)
    requires
        stands_for(deferred, planned),
        forall|content: Seq<char>| page.yields(content) <==> source.yields(content),
    ensures
        stands_for(placed(deferred, name, page), placed(planned, name, source)),
{
    assert(same_keys(deferred, planned)) by {
        assert forall|i: int| 0 <= i < deferred.len() implies (#[trigger] deferred[i]).0 == (
        #[trigger] planned[i]).0 by {}
    }
    lemma_placed_same_keys(deferred, planned, name, page, source);
    let after = placed(deferred, name, page);
    let beside = placed(planned, name, source);
    assert forall|i: int| 0 <= i < after.len() implies (#[trigger] after[i]).0 == beside[i].0
        && forall|content: Seq<char>|
        after[i].1.yields(content) <==> beside[i].1.yields(content) by {
        if i < deferred.len() && !(has_key(deferred, name) && i == position_of(deferred, name)) {
            assert(after[i] == deferred[i]);
            assert(beside[i] == planned[i]);
        }
    }
}

} // verus!
