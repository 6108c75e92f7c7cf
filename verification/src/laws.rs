//! What holds of composing route tables: declaring twice conflicts, merging
//! is a union, and merging and nesting are declaring entry by entry.

use crate::error::RouterError;
use crate::keyed::{
    distinct_keys, has_key, keys_overlap, lemma_has_key_join, lemma_has_key_push,
    lemma_overlap_is_shared_key,
};
use crate::page::Page;
use crate::path::{is_valid_path, is_valid_prefix, normalized_prefix};
use crate::router::Response;
use crate::table::PathTable;
use vstd::prelude::*;

verus! {

impl PathTable {
    /// A path is free in a table exactly until something is declared at it:
    /// a route can be declared at a valid path if and only if the path is not
    /// taken, and once a declaration at a path has succeeded, every further
    /// declaration at that path fails with `RouteConflict`.
    pub proof fn lemma_second_declaration_conflicts(
        self,
        path: Seq<char>,
        first: Response,
        second: Response,
    )
        requires
            is_valid_path(path),
        ensures
            first is Get ==> (self.route(path, first) is Ok <==> !self.has_path(path)),
            self.route(path, first) matches Ok(table) ==> table.route(path, second) == Err::<
                PathTable,
                RouterError,
            >(RouterError::RouteConflict),
    {
        match self.route(path, first) {
            Ok(table) => {
                match first {
                    Response::Get(page) => {
                        lemma_has_key_push(self.routes, path, page, path);
                    },
                    Response::Redirect(target) => {
                        lemma_has_key_push(self.redirects, path, target@, path);
                    },
                }
                assert(table.has_path(path));
            },
            Err(_) => {},
        }
    }

    /// Merging tables that collide nowhere succeeds and gives exactly the
    /// entries of both: every entry of the result is an entry of one of the
    /// two, every entry of the two is in the result, and none is counted
    /// twice.
    pub proof fn lemma_merge_of_disjoint_is_union(self, other: PathTable)
        requires
            !self.paths_collide(other),
            !self.fallbacks_collide(other),
        ensures
            self.merge(other) is Ok,
            self.merge(other)->Ok_0.routes.len() == self.routes.len() + other.routes.len(),
            self.merge(other)->Ok_0.redirects.len() == self.redirects.len()
                + other.redirects.len(),
            self.merge(other)->Ok_0.fallbacks.len() == self.fallbacks.len()
                + other.fallbacks.len(),
            forall|entry: (Seq<char>, Page)|
                self.merge(other)->Ok_0.routes.contains(entry) <==> self.routes.contains(entry)
                    || other.routes.contains(entry),
            forall|entry: (Seq<char>, Seq<char>)|
                self.merge(other)->Ok_0.redirects.contains(entry) <==> self.redirects.contains(
                    entry,
                ) || other.redirects.contains(entry),
            forall|entry: (Seq<char>, Page)|
                self.merge(other)->Ok_0.fallbacks.contains(entry) <==> self.fallbacks.contains(
                    entry,
                ) || other.fallbacks.contains(entry),
    {
        let merged = self.joined(other);
        assert forall|entry: (Seq<char>, Page)|
            merged.routes.contains(entry) <==> self.routes.contains(entry)
                || other.routes.contains(entry) by {
            lemma_joined_contains(self.routes, other.routes, entry);
        }
        assert forall|entry: (Seq<char>, Seq<char>)|
            merged.redirects.contains(entry) <==> self.redirects.contains(entry)
                || other.redirects.contains(entry) by {
            lemma_joined_contains(self.redirects, other.redirects, entry);
        }
        assert forall|entry: (Seq<char>, Page)|
            merged.fallbacks.contains(entry) <==> self.fallbacks.contains(entry)
                || other.fallbacks.contains(entry) by {
            lemma_joined_contains(self.fallbacks, other.fallbacks, entry);
        }
    }

    /// Declaring redirects one after another fails with `RouteConflict` if a
    /// source is taken in the table, and else puts them behind the redirects
    /// of the table.
    pub proof fn lemma_insert_redirects(self, redirects: Seq<(Seq<char>, Seq<char>)>)
        requires
            distinct_keys(redirects),
            forall|i: int|
                0 <= i < redirects.len() ==> is_valid_path((#[trigger] redirects[i]).0)
                    && is_valid_path(redirects[i].1),
        ensures
            self.takes_a_key_of(redirects) ==> self.insert_redirects(redirects) == Err::<
                PathTable,
                RouterError,
            >(RouterError::RouteConflict),
            !self.takes_a_key_of(redirects) ==> self.insert_redirects(redirects) == Ok::<
                PathTable,
                RouterError,
            >(self.with_redirects(redirects)),
        decreases redirects.len(),
    {
        if redirects.len() == 0 {
            assert(self.redirects + redirects =~= self.redirects);
        } else {
            let fewer = redirects.drop_last();
            let last = redirects.last();
            self.lemma_insert_redirects(fewer);
            if self.takes_a_key_of(fewer) {
                let i = choose|i: int| 0 <= i < fewer.len() && self.has_path((#[trigger] fewer[i]).0);
                assert(self.has_path(redirects[i].0));
            } else {
                let table = self.with_redirects(fewer);
                lemma_has_key_join(self.redirects, fewer, last.0);
                if has_key(fewer, last.0) {
                    let j = choose|j: int| 0 <= j < fewer.len() && (#[trigger] fewer[j]).0 == last.0;
                    assert(redirects[j].0 == redirects[redirects.len() - 1].0);
                }
                assert(table.has_path(last.0) <==> self.has_path(last.0));
                if self.has_path(last.0) {
                    assert(self.has_path(redirects[redirects.len() - 1].0));
                } else {
                    assert forall|i: int| 0 <= i < redirects.len() implies !self.has_path(
                        (#[trigger] redirects[i]).0,
                    ) by {
                        if i < fewer.len() {
                            assert(!self.has_path(fewer[i].0));
                        }
                    }
                    assert((self.redirects + fewer).push(last) =~= self.redirects + redirects);
                }
            }
        }
    }

    /// Declaring routes one after another fails with `RouteConflict` if a
    /// path is taken in the table, and else puts them behind the routes of
    /// the table.
    pub proof fn lemma_insert_routes(self, routes: Seq<(Seq<char>, Page)>)
        requires
            distinct_keys(routes),
            forall|i: int| 0 <= i < routes.len() ==> is_valid_path((#[trigger] routes[i]).0),
        ensures
            self.takes_a_key_of(routes) ==> self.insert_routes(routes) == Err::<
                PathTable,
                RouterError,
            >(RouterError::RouteConflict),
            !self.takes_a_key_of(routes) ==> self.insert_routes(routes) == Ok::<
                PathTable,
                RouterError,
            >(self.with_routes(routes)),
        decreases routes.len(),
    {
        if routes.len() == 0 {
            assert(self.routes + routes =~= self.routes);
        } else {
            let fewer = routes.drop_last();
            let last = routes.last();
            self.lemma_insert_routes(fewer);
            if self.takes_a_key_of(fewer) {
                let i = choose|i: int| 0 <= i < fewer.len() && self.has_path((#[trigger] fewer[i]).0);
                assert(self.has_path(routes[i].0));
            } else {
                let table = self.with_routes(fewer);
                lemma_has_key_join(self.routes, fewer, last.0);
                if has_key(fewer, last.0) {
                    let j = choose|j: int| 0 <= j < fewer.len() && (#[trigger] fewer[j]).0 == last.0;
                    assert(routes[j].0 == routes[routes.len() - 1].0);
                }
                assert(table.has_path(last.0) <==> self.has_path(last.0));
                if self.has_path(last.0) {
                    assert(self.has_path(routes[routes.len() - 1].0));
                } else {
                    assert forall|i: int| 0 <= i < routes.len() implies !self.has_path(
                        (#[trigger] routes[i]).0,
                    ) by {
                        if i < fewer.len() {
                            assert(!self.has_path(fewer[i].0));
                        }
                    }
                    assert((self.routes + fewer).push(last) =~= self.routes + routes);
                }
            }
        }
    }

    /// Declaring fallback pages one after another fails with
    /// `FallbackConflict` if a scope has a fallback page in the table, and
    /// else puts them behind the fallback pages of the table.
    pub proof fn lemma_insert_fallbacks(self, fallbacks: Seq<(Seq<char>, Page)>)
        requires
            distinct_keys(fallbacks),
            forall|i: int| 0 <= i < fallbacks.len() ==> is_valid_path((#[trigger] fallbacks[i]).0),
        ensures
            keys_overlap(self.fallbacks, fallbacks) ==> self.insert_fallbacks(fallbacks) == Err::<
                PathTable,
                RouterError,
            >(RouterError::FallbackConflict),
            !keys_overlap(self.fallbacks, fallbacks) ==> self.insert_fallbacks(fallbacks) == Ok::<
                PathTable,
                RouterError,
            >(self.with_fallbacks(fallbacks)),
        decreases fallbacks.len(),
    {
        if fallbacks.len() == 0 {
            assert(self.fallbacks + fallbacks =~= self.fallbacks);
        } else {
            let fewer = fallbacks.drop_last();
            let last = fallbacks.last();
            self.lemma_insert_fallbacks(fewer);
            if keys_overlap(self.fallbacks, fewer) {
                let i = choose|i: int|
                    0 <= i < fewer.len() && has_key(self.fallbacks, (#[trigger] fewer[i]).0);
                assert(has_key(self.fallbacks, fallbacks[i].0));
            } else {
                let table = self.with_fallbacks(fewer);
                lemma_has_key_join(self.fallbacks, fewer, last.0);
                if has_key(fewer, last.0) {
                    let j = choose|j: int| 0 <= j < fewer.len() && (#[trigger] fewer[j]).0 == last.0;
                    assert(fallbacks[j].0 == fallbacks[fallbacks.len() - 1].0);
                }
                assert(table.has_fallback(last.0) <==> self.has_fallback(last.0));
                if self.has_fallback(last.0) {
                    assert(self.has_fallback(fallbacks[fallbacks.len() - 1].0));
                } else {
                    assert forall|i: int| 0 <= i < fallbacks.len() implies !self.has_fallback(
                        (#[trigger] fallbacks[i]).0,
                    ) by {
                        if i < fewer.len() {
                            assert(!self.has_fallback(fewer[i].0));
                        }
                    }
                    assert((self.fallbacks + fewer).push(last) =~= self.fallbacks + fallbacks);
                }
            }
        }
    }

    /// Merging a well-formed table into a table is declaring each of its
    /// entries there, one after another.
    pub proof fn lemma_merge_is_declaring_each(self, other: PathTable)
        requires
            other.wf(),
        ensures
            self.merge(other) == self.declare_all(other),
    {
        self.lemma_paths_collide(other);
        lemma_overlap_is_shared_key(self.routes, other.routes);
        lemma_overlap_is_shared_key(self.routes, other.redirects);
        lemma_overlap_is_shared_key(self.redirects, other.routes);
        lemma_overlap_is_shared_key(self.redirects, other.redirects);
        lemma_overlap_is_shared_key(self.fallbacks, other.fallbacks);
        self.lemma_insert_redirects(other.redirects);
        if self.takes_a_key_of(other.redirects) {
            let i = choose|i: int|
                0 <= i < other.redirects.len() && self.has_path((#[trigger] other.redirects[i]).0);
            assert(has_key(other.redirects, other.redirects[i].0));
            assert(self.has_path(other.redirects[i].0) && other.has_path(other.redirects[i].0));
        } else {
            let with_redirects = self.with_redirects(other.redirects);
            with_redirects.lemma_insert_routes(other.routes);
            if with_redirects.takes_a_key_of(other.routes) {
                let i = choose|i: int|
                    0 <= i < other.routes.len() && with_redirects.has_path(
                        (#[trigger] other.routes[i]).0,
                    );
                let path = other.routes[i].0;
                lemma_has_key_join(self.redirects, other.redirects, path);
                assert(has_key(other.routes, path));
                if has_key(other.redirects, path) {
                    let j = choose|j: int|
                        0 <= j < other.redirects.len() && (#[trigger] other.redirects[j]).0
                            == path;
                    assert(has_key(other.routes, other.redirects[j].0));
                }
                assert(self.has_path(path) && other.has_path(path));
            } else {
                if self.paths_collide(other) {
                    let path = choose|path: Seq<char>| #[trigger]
                        self.has_path(path) && other.has_path(path);
                    if has_key(other.redirects, path) {
                        let j = choose|j: int|
                            0 <= j < other.redirects.len() && (#[trigger] other.redirects[j]).0
                                == path;
                        assert(self.has_path(other.redirects[j].0));
                    } else {
                        let j = choose|j: int|
                            0 <= j < other.routes.len() && (#[trigger] other.routes[j]).0 == path;
                        lemma_has_key_join(self.redirects, other.redirects, path);
                        assert(with_redirects.has_path(other.routes[j].0));
                    }
                }
                let with_routes = with_redirects.with_routes(other.routes);
                with_routes.lemma_insert_fallbacks(other.fallbacks);
                if keys_overlap(with_routes.fallbacks, other.fallbacks) {
                    let i = choose|i: int|
                        0 <= i < other.fallbacks.len() && has_key(
                            with_routes.fallbacks,
                            (#[trigger] other.fallbacks[i]).0,
                        );
                    assert(has_key(other.fallbacks, other.fallbacks[i].0));
                    assert(self.has_fallback(other.fallbacks[i].0) && other.has_fallback(
                        other.fallbacks[i].0,
                    ));
                } else {
                    if self.fallbacks_collide(other) {
                        let scope = choose|scope: Seq<char>| #[trigger]
                            self.has_fallback(scope) && other.has_fallback(scope);
                        let j = choose|j: int|
                            0 <= j < other.fallbacks.len() && (#[trigger] other.fallbacks[j]).0
                                == scope;
                        assert(has_key(with_routes.fallbacks, other.fallbacks[j].0));
                    }
                }
            }
        }
    }

    /// Nesting below a prefix that contributes nothing, such as `/`, is
    /// merging.
    pub proof fn lemma_nest_under_root_is_merge(self, prefix: Seq<char>, other: PathTable)
        requires
            normalized_prefix(prefix).len() == 0,
        ensures
            self.nest(prefix, other) == self.merge(other),
    {
        let moved = other.prefixed(normalized_prefix(prefix));
        assert(moved.routes =~= other.routes) by {
            assert forall|i: int| 0 <= i < other.routes.len() implies moved.routes[i]
                == other.routes[i] by {
                assert(normalized_prefix(prefix) + other.routes[i].0 =~= other.routes[i].0);
            }
        }
        assert(moved.redirects =~= other.redirects) by {
            assert forall|i: int| 0 <= i < other.redirects.len() implies moved.redirects[i]
                == other.redirects[i] by {
                assert(normalized_prefix(prefix) + other.redirects[i].0 =~= other.redirects[i].0);
                assert(normalized_prefix(prefix) + other.redirects[i].1 =~= other.redirects[i].1);
            }
        }
        assert(moved.fallbacks =~= other.fallbacks) by {
            assert forall|i: int| 0 <= i < other.fallbacks.len() implies moved.fallbacks[i]
                == other.fallbacks[i] by {
                assert(normalized_prefix(prefix) + other.fallbacks[i].0 =~= other.fallbacks[i].0);
            }
        }
    }

    /// Declaring entries one after another fails with `InvalidPath` if there
    /// are any and none of them is at a valid path.
    pub proof fn lemma_declaring_at_invalid_paths(self, other: PathTable)
        requires
            !other.is_empty(),
            forall|i: int|
                0 <= i < other.routes.len() ==> !is_valid_path((#[trigger] other.routes[i]).0),
            forall|i: int|
                0 <= i < other.redirects.len() ==> !is_valid_path(
                    (#[trigger] other.redirects[i]).0,
                ),
            forall|i: int|
                0 <= i < other.fallbacks.len() ==> !is_valid_path(
                    (#[trigger] other.fallbacks[i]).0,
                ),
        ensures
            self.declare_all(other) == Err::<PathTable, RouterError>(RouterError::InvalidPath),
    {
        self.lemma_insert_redirects_at_invalid_paths(other.redirects);
        if other.redirects.len() == 0 {
            self.lemma_insert_routes_at_invalid_paths(other.routes);
            if other.routes.len() == 0 {
                self.lemma_insert_fallbacks_at_invalid_paths(other.fallbacks);
            }
        }
    }

    proof fn lemma_insert_redirects_at_invalid_paths(self, redirects: Seq<(Seq<char>, Seq<char>)>)
        requires
            forall|i: int|
                0 <= i < redirects.len() ==> !is_valid_path((#[trigger] redirects[i]).0),
        ensures
            redirects.len() == 0 ==> self.insert_redirects(redirects) == Ok::<
                PathTable,
                RouterError,
            >(self),
            redirects.len() > 0 ==> self.insert_redirects(redirects) == Err::<
                PathTable,
                RouterError,
            >(RouterError::InvalidPath),
        decreases redirects.len(),
    {
        if redirects.len() > 0 {
            let fewer = redirects.drop_last();
            assert forall|i: int| 0 <= i < fewer.len() implies !is_valid_path(
                (#[trigger] fewer[i]).0,
            ) by {
                assert(fewer[i] == redirects[i]);
            }
            self.lemma_insert_redirects_at_invalid_paths(fewer);
            assert(!is_valid_path(redirects[redirects.len() - 1].0));
        }
    }

    proof fn lemma_insert_routes_at_invalid_paths(self, routes: Seq<(Seq<char>, Page)>)
        requires
            forall|i: int| 0 <= i < routes.len() ==> !is_valid_path((#[trigger] routes[i]).0),
        ensures
            routes.len() == 0 ==> self.insert_routes(routes) == Ok::<PathTable, RouterError>(self),
            routes.len() > 0 ==> self.insert_routes(routes) == Err::<PathTable, RouterError>(
                RouterError::InvalidPath,
            ),
        decreases routes.len(),
    {
        if routes.len() > 0 {
            let fewer = routes.drop_last();
            assert forall|i: int| 0 <= i < fewer.len() implies !is_valid_path(
                (#[trigger] fewer[i]).0,
            ) by {
                assert(fewer[i] == routes[i]);
            }
            self.lemma_insert_routes_at_invalid_paths(fewer);
            assert(!is_valid_path(routes[routes.len() - 1].0));
        }
    }

    proof fn lemma_insert_fallbacks_at_invalid_paths(self, fallbacks: Seq<(Seq<char>, Page)>)
        requires
            forall|i: int| 0 <= i < fallbacks.len() ==> !is_valid_path((#[trigger] fallbacks[i]).0),
        ensures
            fallbacks.len() == 0 ==> self.insert_fallbacks(fallbacks) == Ok::<
                PathTable,
                RouterError,
            >(self),
            fallbacks.len() > 0 ==> self.insert_fallbacks(fallbacks) == Err::<
                PathTable,
                RouterError,
            >(RouterError::InvalidPath),
        decreases fallbacks.len(),
    {
        if fallbacks.len() > 0 {
            let fewer = fallbacks.drop_last();
            assert forall|i: int| 0 <= i < fewer.len() implies !is_valid_path(
                (#[trigger] fewer[i]).0,
            ) by {
                assert(fewer[i] == fallbacks[i]);
            }
            self.lemma_insert_fallbacks_at_invalid_paths(fewer);
            assert(!is_valid_path(fallbacks[fallbacks.len() - 1].0));
        }
    }

    /// Nesting a well-formed table below a prefix is putting the prefix,
    /// less its trailing slashes, before each of its paths and declaring
    /// each entry under the new path, one after another: nesting rewrites
    /// paths and merges, and does nothing else. So a table nested into the
    /// empty table and the table declared by hand at the prefixed paths are
    /// the same, and render the same.
    pub proof fn lemma_nest_is_prefixing_and_declaring_each(
        self,
        prefix: Seq<char>,
        other: PathTable,
    )
        requires
            other.wf(),
        ensures
            self.nest(prefix, other) == self.declare_all(
                other.prefixed(normalized_prefix(prefix)),
            ),
            PathTable::empty().nest(prefix, other) is Ok ==> PathTable::empty().nest(
                prefix,
                other,
            ) == Ok::<PathTable, RouterError>(other.prefixed(normalized_prefix(prefix))),
    {
        let before = normalized_prefix(prefix);
        let moved = other.prefixed(before);
        if is_valid_prefix(prefix) {
            other.lemma_prefixed_keeps_wf(before);
            self.lemma_merge_is_declaring_each(moved);
        } else if other.is_empty() {
            assert(moved.wf());
            self.lemma_merge_is_declaring_each(moved);
        } else {
            assert forall|i: int| 0 <= i < moved.routes.len() implies !is_valid_path(
                (#[trigger] moved.routes[i]).0,
            ) by {
                assert(moved.routes[i].0[0] == before[0]);
            }
            assert forall|i: int| 0 <= i < moved.redirects.len() implies !is_valid_path(
                (#[trigger] moved.redirects[i]).0,
            ) by {
                assert(moved.redirects[i].0[0] == before[0]);
            }
            assert forall|i: int| 0 <= i < moved.fallbacks.len() implies !is_valid_path(
                (#[trigger] moved.fallbacks[i]).0,
            ) by {
                assert(moved.fallbacks[i].0[0] == before[0]);
            }
            self.lemma_declaring_at_invalid_paths(moved);
        }
        let empty = PathTable::empty();
        assert(empty.joined(moved).routes =~= moved.routes);
        assert(empty.joined(moved).redirects =~= moved.redirects);
        assert(empty.joined(moved).fallbacks =~= moved.fallbacks);
    }
}

/// An entry is among joined entries when it is among those of either part.
pub proof fn lemma_joined_contains<E>(left: Seq<E>, right: Seq<E>, entry: E)
    ensures
        (left + right).contains(entry) <==> left.contains(entry) || right.contains(entry),
{
    let all = left + right;
    if all.contains(entry) {
        let i = choose|i: int| 0 <= i < all.len() && all[i] == entry;
        if i < left.len() {
            assert(left[i] == entry);
        } else {
            assert(right[i - left.len()] == entry);
        }
    }
    if left.contains(entry) {
        let i = choose|i: int| 0 <= i < left.len() && left[i] == entry;
        assert(all[i] == entry);
    }
    if right.contains(entry) {
        let i = choose|i: int| 0 <= i < right.len() && right[i] == entry;
        assert(all[i + left.len()] == entry);
    }
}

} // verus!
