//! The route table as a mathematical value, the operations that compose
//! tables, and the well-formedness that they keep.

use crate::error::RouterError;
use crate::page::Page;
use crate::path::{is_valid_path, is_valid_prefix, normalized_prefix};
use crate::keyed::{
    distinct_keys, has_key, keys_overlap, lemma_has_key_join, lemma_has_key_push,
    lemma_has_key_with_prefix, lemma_joined_distinct, lemma_overlap_is_shared_key,
    lemma_prefix_keeps_apart, lemma_with_prefix_distinct, with_prefix,
};
use crate::router::Response;
use vstd::prelude::*;

verus! {

/// The content of a route table: pages by path, redirect targets by source
/// path, and fallback pages by scope, each in the order of declaration.
pub struct PathTable {
    pub routes: Seq<(Seq<char>, Page)>,
    pub redirects: Seq<(Seq<char>, Seq<char>)>,
    pub fallbacks: Seq<(Seq<char>, Page)>,
}

/// `redirects` with `prefix` put before each source and each target.
pub open spec fn redirects_with_prefix(
    redirects: Seq<(Seq<char>, Seq<char>)>,
    prefix: Seq<char>,
) -> Seq<(Seq<char>, Seq<char>)> {
    Seq::new(redirects.len(), |i: int| (prefix + redirects[i].0, prefix + redirects[i].1))
}

impl PathTable {
    /// The table without entries.
    pub open spec fn empty() -> PathTable {
        PathTable { routes: Seq::empty(), redirects: Seq::empty(), fallbacks: Seq::empty() }
    }

    /// Whether `path` is taken, by a route or by a redirect.
    pub open spec fn has_path(self, path: Seq<char>) -> bool {
        has_key(self.routes, path) || has_key(self.redirects, path)
    }

    /// Whether `scope` has a fallback page.
    pub open spec fn has_fallback(self, scope: Seq<char>) -> bool {
        has_key(self.fallbacks, scope)
    }

    /// What holds of every table that the operations build: a path is taken
    /// at most once over routes and redirects, a scope has at most one
    /// fallback page, and every path in the table is valid.
    pub open spec fn wf(self) -> bool {
        &&& distinct_keys(self.routes)
        &&& distinct_keys(self.redirects)
        &&& distinct_keys(self.fallbacks)
        &&& !keys_overlap(self.routes, self.redirects)
        &&& forall|i: int|
            0 <= i < self.routes.len() ==> is_valid_path((#[trigger] self.routes[i]).0)
        &&& forall|i: int|
            0 <= i < self.redirects.len() ==> is_valid_path((#[trigger] self.redirects[i]).0)
                && is_valid_path(self.redirects[i].1)
        &&& forall|i: int|
            0 <= i < self.fallbacks.len() ==> is_valid_path((#[trigger] self.fallbacks[i]).0)
    }

    /// Declares that `path` serves `page`.
    pub open spec fn insert_route(self, path: Seq<char>, page: Page) -> Result<
        PathTable,
        RouterError,
    > {
        if !is_valid_path(path) {
            Err(RouterError::InvalidPath)
        } else if self.has_path(path) {
            Err(RouterError::RouteConflict)
        } else {
            Ok(PathTable { routes: self.routes.push((path, page)), ..self })
        }
    }

    /// Declares that `source` redirects to `target`. The target need not be
    /// taken by anything.
    pub open spec fn insert_redirect(self, source: Seq<char>, target: Seq<char>) -> Result<
        PathTable,
        RouterError,
    > {
        if !is_valid_path(source) {
            Err(RouterError::InvalidPath)
        } else if self.has_path(source) {
            Err(RouterError::RouteConflict)
        } else if !is_valid_path(target) {
            Err(RouterError::InvalidPath)
        } else {
            Ok(PathTable { redirects: self.redirects.push((source, target)), ..self })
        }
    }

    /// Declares `page` as the fallback page of `scope`.
    pub open spec fn insert_fallback(self, scope: Seq<char>, page: Page) -> Result<
        PathTable,
        RouterError,
    > {
        if !is_valid_path(scope) {
            Err(RouterError::InvalidPath)
        } else if self.has_fallback(scope) {
            Err(RouterError::FallbackConflict)
        } else {
            Ok(PathTable { fallbacks: self.fallbacks.push((scope, page)), ..self })
        }
    }

    /// Declares what `path` is mapped to.
    pub open spec fn route(self, path: Seq<char>, response: Response) -> Result<
        PathTable,
        RouterError,
    > {
        match response {
            Response::Get(page) => self.insert_route(path, page),
            Response::Redirect(target) => self.insert_redirect(path, target@),
        }
    }

    /// Whether a path is taken in both tables.
    pub open spec fn paths_collide(self, other: PathTable) -> bool {
        exists|path: Seq<char>| #[trigger] self.has_path(path) && other.has_path(path)
    }

    /// Whether a scope has a fallback page in both tables.
    pub open spec fn fallbacks_collide(self, other: PathTable) -> bool {
        exists|scope: Seq<char>| #[trigger] self.has_fallback(scope) && other.has_fallback(scope)
    }

    /// The entries of this table followed by those of `other`.
    pub open spec fn joined(self, other: PathTable) -> PathTable {
        PathTable {
            routes: self.routes + other.routes,
            redirects: self.redirects + other.redirects,
            fallbacks: self.fallbacks + other.fallbacks,
        }
    }

    /// Takes the entries of `other` into this table. Nothing may collide.
    pub open spec fn merge(self, other: PathTable) -> Result<PathTable, RouterError> {
        if self.paths_collide(other) {
            Err(RouterError::RouteConflict)
        } else if self.fallbacks_collide(other) {
            Err(RouterError::FallbackConflict)
        } else {
            Ok(self.joined(other))
        }
    }

    /// This table with `prefix` put before every path: route paths, redirect
    /// sources and targets, and fallback scopes.
    pub open spec fn prefixed(self, prefix: Seq<char>) -> PathTable {
        PathTable {
            routes: with_prefix(self.routes, prefix),
            redirects: redirects_with_prefix(self.redirects, prefix),
            fallbacks: with_prefix(self.fallbacks, prefix),
        }
    }

    /// Whether the table has no entries.
    pub open spec fn is_empty(self) -> bool {
        self.routes.len() == 0 && self.redirects.len() == 0 && self.fallbacks.len() == 0
    }

    /// Takes the entries of `other` into this table, below `prefix`: with
    /// the prefix, less its trailing slashes, before each of their paths.
    /// The paths that this gives must be valid.
    pub open spec fn nest(self, prefix: Seq<char>, other: PathTable) -> Result<
        PathTable,
        RouterError,
    > {
        if !is_valid_prefix(prefix) && !other.is_empty() {
            Err(RouterError::InvalidPath)
        } else {
            self.merge(other.prefixed(normalized_prefix(prefix)))
        }
    }

    /// Declares each of `routes`, one after another.
    pub open spec fn insert_routes(self, routes: Seq<(Seq<char>, Page)>) -> Result<
        PathTable,
        RouterError,
    >
        decreases routes.len(),
    {
        if routes.len() == 0 {
            Ok(self)
        } else {
            match self.insert_routes(routes.drop_last()) {
                Ok(table) => table.insert_route(routes.last().0, routes.last().1),
                Err(error) => Err(error),
            }
        }
    }

    /// Declares each of `redirects`, one after another.
    pub open spec fn insert_redirects(self, redirects: Seq<(Seq<char>, Seq<char>)>) -> Result<
        PathTable,
        RouterError,
    >
        decreases redirects.len(),
    {
        if redirects.len() == 0 {
            Ok(self)
        } else {
            match self.insert_redirects(redirects.drop_last()) {
                Ok(table) => table.insert_redirect(redirects.last().0, redirects.last().1),
                Err(error) => Err(error),
            }
        }
    }

    /// Declares each of `fallbacks`, one after another.
    pub open spec fn insert_fallbacks(self, fallbacks: Seq<(Seq<char>, Page)>) -> Result<
        PathTable,
        RouterError,
    >
        decreases fallbacks.len(),
    {
        if fallbacks.len() == 0 {
            Ok(self)
        } else {
            match self.insert_fallbacks(fallbacks.drop_last()) {
                Ok(table) => table.insert_fallback(fallbacks.last().0, fallbacks.last().1),
                Err(error) => Err(error),
            }
        }
    }

    /// Whether the key of an entry of `entries` is taken in this table, by a
    /// route or by a redirect.
    pub open spec fn takes_a_key_of<V>(self, entries: Seq<(Seq<char>, V)>) -> bool {
        exists|i: int| 0 <= i < entries.len() && self.has_path((#[trigger] entries[i]).0)
    }

    /// This table with `routes` behind its routes.
    pub open spec fn with_routes(self, routes: Seq<(Seq<char>, Page)>) -> PathTable {
        PathTable { routes: self.routes + routes, ..self }
    }

    /// This table with `redirects` behind its redirects.
    pub open spec fn with_redirects(self, redirects: Seq<(Seq<char>, Seq<char>)>) -> PathTable {
        PathTable { redirects: self.redirects + redirects, ..self }
    }

    /// This table with `fallbacks` behind its fallback pages.
    pub open spec fn with_fallbacks(self, fallbacks: Seq<(Seq<char>, Page)>) -> PathTable {
        PathTable { fallbacks: self.fallbacks + fallbacks, ..self }
    }

    /// Declares every entry of `other` in this table, one after another: the
    /// redirects, then the routes, then the fallback pages.
    pub open spec fn declare_all(self, other: PathTable) -> Result<PathTable, RouterError> {
        match self.insert_redirects(other.redirects) {
            Err(error) => Err(error),
            Ok(with_redirects) => match with_redirects.insert_routes(other.routes) {
                Err(error) => Err(error),
                Ok(with_routes) => with_routes.insert_fallbacks(other.fallbacks),
            },
        }
    }
}

impl PathTable {
    /// The empty table is well formed.
    pub proof fn lemma_empty_wf()
        ensures
            PathTable::empty().wf(),
    {
    }

    /// Declaring a route keeps a table well formed.
    pub proof fn lemma_insert_route_keeps_wf(self, path: Seq<char>, page: Page)
        requires
            self.wf(),
            self.insert_route(path, page) is Ok,
        ensures
            self.insert_route(path, page)->Ok_0.wf(),
    {
        let after = self.insert_route(path, page)->Ok_0;
        assert forall|i: int, j: int| 0 <= i < j < after.routes.len() implies (
        #[trigger] after.routes[i]).0 != (#[trigger] after.routes[j]).0 by {
            if j < self.routes.len() {
                assert(self.routes[i].0 != self.routes[j].0);
            } else {
                assert(after.routes[i] == self.routes[i]);
            }
        }
        if keys_overlap(after.routes, after.redirects) {
            let i = choose|i: int|
                0 <= i < after.redirects.len() && has_key(
                    after.routes,
                    (#[trigger] after.redirects[i]).0,
                );
            lemma_has_key_push(self.routes, path, page, self.redirects[i].0);
            assert(has_key(self.redirects, self.redirects[i].0));
        }
        assert forall|i: int| 0 <= i < after.routes.len() implies is_valid_path(
            (#[trigger] after.routes[i]).0,
        ) by {
            if i < self.routes.len() {
                assert(after.routes[i] == self.routes[i]);
            }
        }
    }

    /// Declaring a redirect keeps a table well formed.
    pub proof fn lemma_insert_redirect_keeps_wf(self, source: Seq<char>, target: Seq<char>)
        requires
            self.wf(),
            self.insert_redirect(source, target) is Ok,
        ensures
            self.insert_redirect(source, target)->Ok_0.wf(),
    {
        let after = self.insert_redirect(source, target)->Ok_0;
        assert forall|i: int, j: int| 0 <= i < j < after.redirects.len() implies (
        #[trigger] after.redirects[i]).0 != (#[trigger] after.redirects[j]).0 by {
            if j < self.redirects.len() {
                assert(self.redirects[i].0 != self.redirects[j].0);
            } else {
                assert(after.redirects[i] == self.redirects[i]);
            }
        }
        if keys_overlap(after.routes, after.redirects) {
            let i = choose|i: int|
                0 <= i < after.redirects.len() && has_key(
                    after.routes,
                    (#[trigger] after.redirects[i]).0,
                );
            if i < self.redirects.len() {
                assert(after.redirects[i] == self.redirects[i]);
                assert(has_key(self.routes, self.redirects[i].0));
            }
        }
        assert forall|i: int| 0 <= i < after.redirects.len() implies is_valid_path(
            (#[trigger] after.redirects[i]).0,
        ) && is_valid_path(after.redirects[i].1) by {
            if i < self.redirects.len() {
                assert(after.redirects[i] == self.redirects[i]);
            }
        }
    }

    /// Declaring a fallback page keeps a table well formed.
    pub proof fn lemma_insert_fallback_keeps_wf(self, scope: Seq<char>, page: Page)
        requires
            self.wf(),
            self.insert_fallback(scope, page) is Ok,
        ensures
            self.insert_fallback(scope, page)->Ok_0.wf(),
    {
        let after = self.insert_fallback(scope, page)->Ok_0;
        assert forall|i: int, j: int| 0 <= i < j < after.fallbacks.len() implies (
        #[trigger] after.fallbacks[i]).0 != (#[trigger] after.fallbacks[j]).0 by {
            if j < self.fallbacks.len() {
                assert(self.fallbacks[i].0 != self.fallbacks[j].0);
            } else {
                assert(after.fallbacks[i] == self.fallbacks[i]);
            }
        }
        assert forall|i: int| 0 <= i < after.fallbacks.len() implies is_valid_path(
            (#[trigger] after.fallbacks[i]).0,
        ) by {
            if i < self.fallbacks.len() {
                assert(after.fallbacks[i] == self.fallbacks[i]);
            }
        }
    }

    /// Two tables collide on a path exactly when the routes or redirects of
    /// one overlap those of the other.
    pub proof fn lemma_paths_collide(self, other: PathTable)
        ensures
            self.paths_collide(other) <==> keys_overlap(self.routes, other.routes) || keys_overlap(
                self.routes,
                other.redirects,
            ) || keys_overlap(self.redirects, other.routes) || keys_overlap(
                self.redirects,
                other.redirects,
            ),
            self.fallbacks_collide(other) <==> keys_overlap(self.fallbacks, other.fallbacks),
    {
        lemma_overlap_is_shared_key(self.routes, other.routes);
        lemma_overlap_is_shared_key(self.routes, other.redirects);
        lemma_overlap_is_shared_key(self.redirects, other.routes);
        lemma_overlap_is_shared_key(self.redirects, other.redirects);
        lemma_overlap_is_shared_key(self.fallbacks, other.fallbacks);
        if self.paths_collide(other) {
            let path = choose|path: Seq<char>| #[trigger]
                self.has_path(path) && other.has_path(path);
            assert((has_key(self.routes, path) && has_key(other.routes, path)) || (has_key(
                self.routes,
                path,
            ) && has_key(other.redirects, path)) || (has_key(self.redirects, path) && has_key(
                other.routes,
                path,
            )) || (has_key(self.redirects, path) && has_key(other.redirects, path)));
        }
        if keys_overlap(self.routes, other.routes) {
            let path = choose|key: Seq<char>| #[trigger]
                has_key(self.routes, key) && has_key(other.routes, key);
            assert(self.has_path(path) && other.has_path(path));
        }
        if keys_overlap(self.routes, other.redirects) {
            let path = choose|key: Seq<char>| #[trigger]
                has_key(self.routes, key) && has_key(other.redirects, key);
            assert(self.has_path(path) && other.has_path(path));
        }
        if keys_overlap(self.redirects, other.routes) {
            let path = choose|key: Seq<char>| #[trigger]
                has_key(self.redirects, key) && has_key(other.routes, key);
            assert(self.has_path(path) && other.has_path(path));
        }
        if keys_overlap(self.redirects, other.redirects) {
            let path = choose|key: Seq<char>| #[trigger]
                has_key(self.redirects, key) && has_key(other.redirects, key);
            assert(self.has_path(path) && other.has_path(path));
        }
        if self.fallbacks_collide(other) {
            let scope = choose|scope: Seq<char>| #[trigger]
                self.has_fallback(scope) && other.has_fallback(scope);
            assert(has_key(self.fallbacks, scope) && has_key(other.fallbacks, scope));
        }
        if keys_overlap(self.fallbacks, other.fallbacks) {
            let scope = choose|key: Seq<char>| #[trigger]
                has_key(self.fallbacks, key) && has_key(other.fallbacks, key);
            assert(self.has_fallback(scope) && other.has_fallback(scope));
        }
    }

    /// Merging keeps tables well formed.
    pub proof fn lemma_merge_keeps_wf(self, other: PathTable)
        requires
            self.wf(),
            other.wf(),
            self.merge(other) is Ok,
        ensures
            self.merge(other)->Ok_0.wf(),
    {
        let all = self.joined(other);
        self.lemma_paths_collide(other);
        lemma_joined_distinct(self.routes, other.routes);
        lemma_joined_distinct(self.redirects, other.redirects);
        lemma_joined_distinct(self.fallbacks, other.fallbacks);
        if keys_overlap(all.routes, all.redirects) {
            let i = choose|i: int|
                0 <= i < all.redirects.len() && has_key(all.routes, (#[trigger] all.redirects[i]).0);
            let path = all.redirects[i].0;
            lemma_has_key_join(self.routes, other.routes, path);
            lemma_has_key_join(self.redirects, other.redirects, path);
            assert(has_key(all.redirects, path));
            lemma_overlap_is_shared_key(self.routes, self.redirects);
            lemma_overlap_is_shared_key(other.routes, other.redirects);
            if has_key(self.routes, path) {
                assert(self.has_path(path));
                if has_key(other.redirects, path) {
                    assert(other.has_path(path));
                }
            } else {
                assert(other.has_path(path));
                if has_key(self.redirects, path) {
                    assert(self.has_path(path));
                }
            }
        }
        assert forall|i: int| 0 <= i < all.routes.len() implies is_valid_path(
            (#[trigger] all.routes[i]).0,
        ) by {
            if i < self.routes.len() {
                assert(all.routes[i] == self.routes[i]);
            } else {
                assert(all.routes[i] == other.routes[i - self.routes.len()]);
            }
        }
        assert forall|i: int| 0 <= i < all.redirects.len() implies is_valid_path(
            (#[trigger] all.redirects[i]).0,
        ) && is_valid_path(all.redirects[i].1) by {
            if i < self.redirects.len() {
                assert(all.redirects[i] == self.redirects[i]);
            } else {
                assert(all.redirects[i] == other.redirects[i - self.redirects.len()]);
            }
        }
        assert forall|i: int| 0 <= i < all.fallbacks.len() implies is_valid_path(
            (#[trigger] all.fallbacks[i]).0,
        ) by {
            if i < self.fallbacks.len() {
                assert(all.fallbacks[i] == self.fallbacks[i]);
            } else {
                assert(all.fallbacks[i] == other.fallbacks[i - self.fallbacks.len()]);
            }
        }
    }

    /// Putting a prefix that is empty or starts with `/` before every path
    /// keeps a table well formed.
    pub proof fn lemma_prefixed_keeps_wf(self, prefix: Seq<char>)
        requires
            self.wf(),
            prefix.len() == 0 || prefix[0] == '/',
        ensures
            self.prefixed(prefix).wf(),
    {
        let moved = self.prefixed(prefix);
        lemma_with_prefix_distinct(self.routes, prefix);
        lemma_with_prefix_distinct(self.fallbacks, prefix);
        assert forall|i: int, j: int| 0 <= i < j < moved.redirects.len() implies (
        #[trigger] moved.redirects[i]).0 != (#[trigger] moved.redirects[j]).0 by {
            if moved.redirects[i].0 == moved.redirects[j].0 {
                lemma_prefix_keeps_apart(prefix, self.redirects[i].0, self.redirects[j].0);
                assert(self.redirects[i].0 != self.redirects[j].0);
            }
        }
        if keys_overlap(moved.routes, moved.redirects) {
            let i = choose|i: int|
                0 <= i < moved.redirects.len() && has_key(
                    moved.routes,
                    (#[trigger] moved.redirects[i]).0,
                );
            lemma_has_key_with_prefix(self.routes, prefix, moved.redirects[i].0);
            let j = choose|j: int|
                0 <= j < self.routes.len() && moved.redirects[i].0 == prefix + (
                #[trigger] self.routes[j]).0;
            lemma_prefix_keeps_apart(prefix, self.redirects[i].0, self.routes[j].0);
            assert(has_key(self.routes, self.redirects[i].0));
        }
        assert forall|i: int| 0 <= i < moved.routes.len() implies is_valid_path(
            (#[trigger] moved.routes[i]).0,
        ) by {
            assert(is_valid_path(self.routes[i].0));
        }
        assert forall|i: int| 0 <= i < moved.redirects.len() implies is_valid_path(
            (#[trigger] moved.redirects[i]).0,
        ) && is_valid_path(moved.redirects[i].1) by {
            assert(is_valid_path(self.redirects[i].0));
            assert(is_valid_path(self.redirects[i].1));
        }
        assert forall|i: int| 0 <= i < moved.fallbacks.len() implies is_valid_path(
            (#[trigger] moved.fallbacks[i]).0,
        ) by {
            assert(is_valid_path(self.fallbacks[i].0));
        }
    }

    /// Nesting keeps tables well formed.
    pub proof fn lemma_nest_keeps_wf(self, prefix: Seq<char>, other: PathTable)
        requires
            self.wf(),
            other.wf(),
            self.nest(prefix, other) is Ok,
        ensures
            self.nest(prefix, other)->Ok_0.wf(),
    {
        let moved = other.prefixed(normalized_prefix(prefix));
        if is_valid_prefix(prefix) {
            other.lemma_prefixed_keeps_wf(normalized_prefix(prefix));
        } else {
            assert(moved.wf());
        }
        self.lemma_merge_keeps_wf(moved);
    }
}

} // verus!
