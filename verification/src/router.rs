//! The route table builder: routes, redirects and fallback pages are
//! declared one by one, and whole tables are merged or nested.

use crate::error::RouterError;
use crate::keyed::lemma_prefix_keeps_apart;
use crate::page::Page;
use crate::path::{join_path, normalize_prefix, validate_path};
use crate::path_map::{keyed_by_text, PathMap};
use crate::table::{redirects_with_prefix, PathTable};
use vstd::prelude::*;
use vstd::string::*;

verus! {

/// What a path is mapped to when a route is declared.
pub enum Response {
    /// The path serves the page.
    Get(Page),
    /// The path redirects to another path.
    Redirect(String),
}

/// Makes the response that serves the page `page` renders.
pub fn get<R: FnOnce() -> String + 'static>(page: R) -> (response: Response)
    requires
        call_requires(page, ()),
    ensures
        response matches Response::Get(deferred) && deferred.defers(page),
{
    Response::Get(Page::new(page))
}

/// Makes the response that redirects to `path`.
pub fn redirect(path: &str) -> (response: Response)
    ensures
        response matches Response::Redirect(target) && target@ == path@,
{
    Response::Redirect(path.to_owned())
}

/// A table of routes, redirects and fallback pages. Each operation takes
/// the table and gives it back, or fails and gives an error.
pub struct Router {
    routes: PathMap<Page>,
    redirects: PathMap<String>,
    fallbacks: PathMap<Page>,
}

impl View for Router {
    type V = PathTable;

    closed spec fn view(&self) -> PathTable {
        PathTable {
            routes: self.routes@,
            redirects: self.redirects@,
            fallbacks: self.fallbacks@,
        }
    }
}

/// Whether an operation ended as the operation on table contents says:
/// with a table of that content, or with that error.
pub open spec fn agrees(
    result: Result<Router, RouterError>,
    expected: Result<PathTable, RouterError>,
) -> bool {
    match expected {
        Ok(table) => result is Ok && result->Ok_0@ == table,
        Err(error) => result is Err && result->Err_0 == error,
    }
}

impl Router {
    #[verifier::type_invariant]
    spec fn well_formed(&self) -> bool {
        self@.wf()
    }

    /// Creates a table without entries.
    pub fn new() -> (router: Router)
        ensures
            router@ == PathTable::empty(),
            router@.wf(),
    {
        Router { routes: PathMap::new(), redirects: PathMap::new(), fallbacks: PathMap::new() }
    }

    /// Declares what `path` is mapped to: a page, or a redirect to another
    /// path. Fails with `InvalidPath` if `path` is not a valid path, with
    /// `RouteConflict` if it is taken, and with `InvalidPath` if the target
    /// of a redirect is not a valid path.
    pub fn route(self, path: &str, response: Response) -> (result: Result<Router, RouterError>)
        ensures
            agrees(result, self@.route(path@, response)),
            result matches Ok(router) ==> router@.wf(),
    {
        proof {
            use_type_invariant(&self);
        }
        if !validate_path(path) {
            return Err(RouterError::InvalidPath);
        }
        if self.routes.contains_key(path) || self.redirects.contains_key(path) {
            return Err(RouterError::RouteConflict);
        }
        let ghost before = self@;
        let Router { routes, redirects, fallbacks } = self;
        match response {
            Response::Get(page) => {
                proof {
                    before.lemma_insert_route_keeps_wf(path@, page);
                }
                let routes = routes.insert(path.to_owned(), page);
                Ok(Router { routes, redirects, fallbacks })
            },
            Response::Redirect(target) => {
                if !validate_path(target.as_str()) {
                    return Err(RouterError::InvalidPath);
                }
                proof {
                    before.lemma_insert_redirect_keeps_wf(path@, target@);
                }
                let redirects = redirects.insert(path.to_owned(), target);
                Ok(Router { routes, redirects, fallbacks })
            },
        }
    }

    /// Declares `page` as the fallback page of the scope `/`: the page to
    /// serve where nothing else matches. Fails with `FallbackConflict` if the
    /// scope has one already.
    pub fn fallback<R: FnOnce() -> String + 'static>(self, page: R) -> (result: Result<
        Router,
        RouterError,
    >)
        requires
            call_requires(page, ()),
        ensures
            exists|deferred: Page|
                deferred.defers(page) && agrees(
                    result,
                    self@.insert_fallback(seq!['/'], deferred),
                ),
            result matches Ok(router) ==> router@.wf(),
    {
        let deferred = Page::new(page);
        proof {
            reveal_strlit("/");
            assert("/"@ =~= seq!['/']);
        }
        let result = self.fallback_at("/", deferred);
        proof {
            assert(deferred.defers(page) && agrees(
                result,
                self@.insert_fallback(seq!['/'], deferred),
            ));
        }
        result
    }

    /// Declares `page` as the fallback page of `scope`: the page to serve
    /// where nothing else matches below that path. Fails with `InvalidPath`
    /// if `scope` is not a valid path, and with `FallbackConflict` if the
    /// scope has a fallback page already.
    pub fn fallback_at(self, scope: &str, page: Page) -> (result: Result<Router, RouterError>)
        ensures
            agrees(result, self@.insert_fallback(scope@, page)),
            result matches Ok(router) ==> router@.wf(),
    {
        proof {
            use_type_invariant(&self);
        }
        if !validate_path(scope) {
            return Err(RouterError::InvalidPath);
        }
        if self.fallbacks.contains_key(scope) {
            return Err(RouterError::FallbackConflict);
        }
        let ghost before = self@;
        let Router { routes, redirects, fallbacks } = self;
        proof {
            before.lemma_insert_fallback_keeps_wf(scope@, page);
        }
        let fallbacks = fallbacks.insert(scope.to_owned(), page);
        Ok(Router { routes, redirects, fallbacks })
    }

    /// Takes the routes, redirects and fallback pages of `router` into this
    /// table, behind its own. Fails with `RouteConflict` if a path is taken
    /// in both tables, else with `FallbackConflict` if a scope has a fallback
    /// page in both.
    pub fn merge(self, router: Router) -> (result: Result<Router, RouterError>)
        ensures
            agrees(result, self@.merge(router@)),
            result matches Ok(merged) ==> merged@.wf(),
    {
        proof {
            use_type_invariant(&self);
            use_type_invariant(&router);
            self@.lemma_paths_collide(router@);
        }
        if self.routes.overlaps(&router.routes) || self.routes.overlaps(&router.redirects)
            || self.redirects.overlaps(&router.routes) || self.redirects.overlaps(
            &router.redirects,
        ) {
            return Err(RouterError::RouteConflict);
        }
        if self.fallbacks.overlaps(&router.fallbacks) {
            return Err(RouterError::FallbackConflict);
        }
        proof {
            self@.lemma_merge_keeps_wf(router@);
        }
        let Router { routes, redirects, fallbacks } = self;
        let Router { routes: more_routes, redirects: more_redirects, fallbacks: more_fallbacks } =
            router;
        Ok(
            Router {
                routes: routes.join(more_routes),
                redirects: redirects.join(more_redirects),
                fallbacks: fallbacks.join(more_fallbacks),
            },
        )
    }

    /// Takes the entries of `router` into this table, below `prefix`: the
    /// prefix, less its trailing slashes, is put before every route path,
    /// redirect source and target, and fallback scope of `router`, and the
    /// result is merged into this table. A prefix of `/` changes no path.
    /// Fails with `InvalidPath` if `router` has entries and the prefix, less
    /// its trailing slashes, is neither empty nor starts with `/`; the paths
    /// would be invalid. Fails otherwise as the merge does.
    pub fn nest(self, prefix: &str, router: Router) -> (result: Result<Router, RouterError>)
        ensures
            agrees(result, self@.nest(prefix@, router@)),
            result matches Ok(nested) ==> nested@.wf(),
    {
        proof {
            use_type_invariant(&router);
        }
        let normalized = normalize_prefix(prefix);
        let valid = normalized.as_str().is_empty() || normalized.as_str().get_char(0) == '/';
        let empty = router.routes.len() == 0 && router.redirects.len() == 0
            && router.fallbacks.len() == 0;
        if !valid && !empty {
            return Err(RouterError::InvalidPath);
        }
        proof {
            if valid {
                router@.lemma_prefixed_keeps_wf(normalized@);
            } else {
                assert(router@.prefixed(normalized@).wf());
            }
        }
        let Router { routes, redirects, fallbacks } = router;
        let moved = Router {
            routes: routes.prefixed(normalized.as_str()),
            redirects: prefix_redirects(redirects, normalized.as_str()),
            fallbacks: fallbacks.prefixed(normalized.as_str()),
        };
        self.merge(moved)
    }
}

impl Router {
    /// Gives up the three collections of the table: routes, redirects and
    /// fallback pages.
    pub(crate) fn into_parts(self) -> (parts: (PathMap<Page>, PathMap<String>, PathMap<Page>))
        ensures
            parts.0@ == self@.routes,
            parts.1@ == self@.redirects,
            parts.2@ == self@.fallbacks,
            self@.wf(),
    {
        proof {
            use_type_invariant(&self);
        }
        (self.routes, self.redirects, self.fallbacks)
    }

    /// Returns the redirects as they were declared.
    pub(crate) fn declared_redirects(&self) -> (redirects: &PathMap<String>)
        ensures
            redirects@ == self@.redirects,
            self@.wf(),
    {
        proof {
            use_type_invariant(self);
        }
        &self.redirects
    }
}

/// Puts `prefix` before the source and the target of each redirect.
fn prefix_redirects(redirects: PathMap<String>, prefix: &str) -> (moved: PathMap<String>)
    ensures
        moved@ == redirects_with_prefix(redirects@, prefix@),
{
    let ghost before = redirects@;
    let taken = redirects.into_entries();
    let mut entries: Vec<(String, String)> = Vec::new();
    for entry in rest: taken.into_iter()
        invariant
            entries@.len() == rest.index(),
            rest.seq().len() == before.len(),
            keyed_by_text(rest.seq()) == before,
            forall|i: int|
                0 <= i < entries@.len() ==> (#[trigger] entries@[i]).0@ == prefix@ + before[i].0
                    && entries@[i].1@ == prefix@ + before[i].1,
    {
        assert(keyed_by_text(rest.seq())[rest.index()] == before[rest.index()]);
        let (source, target) = entry;
        entries.push((join_path(prefix, source.as_str()), join_path(prefix, target.as_str())));
    }
    proof {
        assert(keyed_by_text(entries@) =~= redirects_with_prefix(before, prefix@));
        assert forall|i: int, j: int|
            0 <= i < j < entries@.len() implies (#[trigger] keyed_by_text(entries@)[i]).0 != (
        #[trigger] keyed_by_text(entries@)[j]).0 by {
            if prefix@ + before[i].0 == prefix@ + before[j].0 {
                lemma_prefix_keeps_apart(prefix@, before[i].0, before[j].0);
            }
        }
    }
    PathMap::from_entries(entries)
}

} // verus!
