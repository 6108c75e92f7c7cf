//! Chains of redirects: following each to its final target, and telling
//! when one runs into a cycle.

use crate::error::RouterError;
use crate::keyed::{distinct_keys, has_key, position_of};
use crate::path_map::{keyed_by_text, PathMap};
use crate::router::Router;
use vstd::prelude::*;

verus! {

/// The target that `redirects` declares for `source`.
pub open spec fn target_of(redirects: Seq<(Seq<char>, Seq<char>)>, source: Seq<char>) -> Seq<char>
    recommends
        has_key(redirects, source),
{
    redirects[position_of(redirects, source)].1
}

/// The path reached from `path` by following redirects, at most `hops` of
/// them, and no further than a path that redirects nowhere.
pub open spec fn followed(redirects: Seq<(Seq<char>, Seq<char>)>, path: Seq<char>, hops: nat) -> Seq<
    char,
>
    decreases hops,
{
    if hops == 0 || !has_key(redirects, path) {
        path
    } else {
        followed(redirects, target_of(redirects, path), (hops - 1) as nat)
    }
}

/// Whether following redirects from `path` comes to an end: to a path that
/// redirects nowhere.
pub open spec fn settles(redirects: Seq<(Seq<char>, Seq<char>)>, path: Seq<char>) -> bool {
    exists|hops: nat| !has_key(redirects, #[trigger] followed(redirects, path, hops))
}

/// The path at which following redirects from `path` comes to an end.
pub open spec fn final_target(redirects: Seq<(Seq<char>, Seq<char>)>, path: Seq<char>) -> Seq<
    char,
>
    recommends
        settles(redirects, path),
{
    followed(
        redirects,
        path,
        choose|hops: nat| !has_key(redirects, #[trigger] followed(redirects, path, hops)),
    )
}

/// Whether some redirect leads into a cycle: following it never ends.
pub open spec fn has_cycle(redirects: Seq<(Seq<char>, Seq<char>)>) -> bool {
    exists|i: int| 0 <= i < redirects.len() && !settles(redirects, (#[trigger] redirects[i]).1)
}

/// Whether no redirect leads to the source of another: every chain has one
/// link.
pub open spec fn chain_free(redirects: Seq<(Seq<char>, Seq<char>)>) -> bool {
    forall|i: int| 0 <= i < redirects.len() ==> !has_key(redirects, (#[trigger] redirects[i]).1)
}

/// The redirects with each target replaced by the end of its chain.
pub open spec fn resolved(redirects: Seq<(Seq<char>, Seq<char>)>) -> Seq<(Seq<char>, Seq<char>)> {
    Seq::new(
        redirects.len(),
        |i: int| (redirects[i].0, final_target(redirects, redirects[i].1)),
    )
}

/// Resolving redirect chains: every source is sent straight to the end of
/// its chain, unless a chain runs into a cycle.
pub open spec fn resolve(redirects: Seq<(Seq<char>, Seq<char>)>) -> Result<
    Seq<(Seq<char>, Seq<char>)>,
    RouterError,
> {
    if has_cycle(redirects) {
        Err(RouterError::RedirectCycle)
    } else {
        Ok(resolved(redirects))
    }
}

/// Following `first + more` redirects is following `first` of them and then
/// `more` from where that led.
pub proof fn lemma_followed_in_two(
    redirects: Seq<(Seq<char>, Seq<char>)>,
    path: Seq<char>,
    first: nat,
    more: nat,
)
    ensures
        followed(redirects, path, first + more) == followed(
            redirects,
            followed(redirects, path, first),
            more,
        ),
    decreases first,
{
    if first == 0 {
    } else if !has_key(redirects, path) {
        assert(followed(redirects, path, more) == path) by {
            reveal_with_fuel(followed, 1);
        }
    } else {
        lemma_followed_in_two(
            redirects,
            target_of(redirects, path),
            (first - 1) as nat,
            more,
        );
    }
}

/// Once following has come to an end, more hops lead nowhere else.
pub proof fn lemma_settled_stays(
    redirects: Seq<(Seq<char>, Seq<char>)>,
    path: Seq<char>,
    hops: nat,
    more: nat,
)
    requires
        !has_key(redirects, followed(redirects, path, hops)),
    ensures
        followed(redirects, path, hops + more) == followed(redirects, path, hops),
{
    lemma_followed_in_two(redirects, path, hops, more);
}

/// Where following comes to an end after some number of hops, that end is
/// the final target.
pub proof fn lemma_final_target(redirects: Seq<(Seq<char>, Seq<char>)>, path: Seq<char>, hops: nat)
    requires
        !has_key(redirects, followed(redirects, path, hops)),
    ensures
        settles(redirects, path),
        final_target(redirects, path) == followed(redirects, path, hops),
{
    let chosen = choose|h: nat| !has_key(redirects, #[trigger] followed(redirects, path, h));
    if chosen <= hops {
        lemma_settled_stays(redirects, path, chosen, (hops - chosen) as nat);
    } else {
        lemma_settled_stays(redirects, path, hops, (chosen - hops) as nat);
    }
}

/// Where following passes the same source twice, it never comes to an end.
pub proof fn lemma_revisit_never_settles(
    redirects: Seq<(Seq<char>, Seq<char>)>,
    path: Seq<char>,
    earlier: nat,
    later: nat,
)
    requires
        earlier < later,
        followed(redirects, path, earlier) == followed(redirects, path, later),
        forall|hops: nat| hops < later ==> has_key(redirects, #[trigger] followed(redirects, path, hops)),
    ensures
        !settles(redirects, path),
{
    assert forall|hops: nat| has_key(redirects, #[trigger] followed(redirects, path, hops)) by {
        lemma_always_a_source(redirects, path, earlier, later, hops);
    }
}

/// Where following passes the same source twice, every number of hops
/// leads to a source.
proof fn lemma_always_a_source(
    redirects: Seq<(Seq<char>, Seq<char>)>,
    path: Seq<char>,
    earlier: nat,
    later: nat,
    hops: nat,
)
    requires
        earlier < later,
        followed(redirects, path, earlier) == followed(redirects, path, later),
        forall|h: nat| h < later ==> has_key(redirects, #[trigger] followed(redirects, path, h)),
    ensures
        has_key(redirects, followed(redirects, path, hops)),
    decreases hops,
{
    if hops >= later {
        let beyond = (hops - later) as nat;
        lemma_followed_in_two(redirects, path, later, beyond);
        lemma_followed_in_two(redirects, path, earlier, beyond);
        lemma_always_a_source(redirects, path, earlier, later, earlier + beyond);
    }
}

/// The number of flags that are not set.
spec fn unset_count(flags: Seq<bool>) -> nat
    decreases flags.len(),
{
    if flags.len() == 0 {
        0
    } else {
        unset_count(flags.drop_last()) + if flags.last() {
            0nat
        } else {
            1nat
        }
    }
}

/// Setting a flag that was not set leaves one unset flag fewer.
proof fn lemma_set_flag(flags: Seq<bool>, index: int)
    requires
        0 <= index < flags.len(),
        !flags[index],
    ensures
        unset_count(flags.update(index, true)) + 1 == unset_count(flags),
    decreases flags.len(),
{
    let after = flags.update(index, true);
    if index == flags.len() - 1 {
        assert(after.drop_last() =~= flags.drop_last());
    } else {
        lemma_set_flag(flags.drop_last(), index);
        assert(after.drop_last() =~= flags.drop_last().update(index, true));
    }
}

/// Follows the chain of the redirect at `start` to its end. Returns `None`
/// if the chain comes back to a source it has passed.
fn follow_chain(redirects: &PathMap<String>, start: usize) -> (end: Option<String>)
    requires
        start < redirects@.len(),
    ensures
        end is Some <==> settles(redirects@, redirects@[start as int].1),
        end matches Some(path) ==> path@ == final_target(redirects@, redirects@[start as int].1),
{
    let count: usize = redirects.len();
    let ghost first = redirects@[start as int].1;
    let mut passed: Vec<bool> = Vec::new();
    let mut filled: usize = 0;
    while filled < count
        invariant
            filled <= count,
            passed@.len() == filled,
            forall|i: int| 0 <= i < filled ==> passed@[i] == (i == start),
        decreases count - filled,
    {
        passed.push(filled == start);
        filled = filled + 1;
    }
    let mut at: usize = start;
    let ghost mut hops: nat = 0;
    loop
        invariant
            count == redirects@.len(),
            start < count,
            at < count,
            passed@.len() == count,
            first == redirects@[start as int].1,
            distinct_keys(redirects@),
            redirects@[at as int].1 == followed(redirects@, first, hops),
            forall|h: nat| h < hops ==> has_key(redirects@, #[trigger] followed(redirects@, first, h)),
            forall|i: int|
                0 <= i < count && #[trigger] passed@[i] ==> i == start || exists|h: nat|
                    h < hops && #[trigger] followed(redirects@, first, h) == redirects@[i].0,
        decreases unset_count(passed@),
    {
        let current = redirects.value_at(at);
        match redirects.position(current.as_str()) {
            None => {
                proof {
                    lemma_final_target(redirects@, first, hops);
                }
                return Some(current.clone());
            },
            Some(next) => {
                proof {
                    lemma_followed_in_two(redirects@, first, hops, 1);
                    reveal_with_fuel(followed, 2);
                    assert(followed(redirects@, first, hops + 1) == redirects@[next as int].1);
                }
                if passed[next] {
                    proof {
                        if next == start {
                            assert(followed(redirects@, first, 0) == first);
                            assert forall|h: nat| h < hops + 1 implies has_key(
                                redirects@,
                                #[trigger] followed(redirects@, first, h),
                            ) by {}
                            lemma_revisit_never_settles(redirects@, first, 0, hops + 1);
                        } else {
                            let earlier = choose|h: nat|
                                h < hops && #[trigger] followed(redirects@, first, h)
                                    == redirects@[next as int].0;
                            lemma_revisit_never_settles(redirects@, first, earlier, hops);
                        }
                    }
                    return None;
                }
                proof {
                    lemma_set_flag(passed@, next as int);
                }
                let ghost before = passed@;
                passed[next] = true;
                proof {
                    assert(passed@ =~= before.update(next as int, true));
                    assert forall|i: int| 0 <= i < count && #[trigger] passed@[i] implies i
                        == start || exists|h: nat|
                        h < hops + 1 && #[trigger] followed(redirects@, first, h)
                            == redirects@[i].0 by {
                        if i == next {
                            assert(followed(redirects@, first, hops) == redirects@[i].0);
                        } else if i != start {
                            assert(before[i]);
                            let h = choose|h: nat|
                                h < hops && #[trigger] followed(redirects@, first, h)
                                    == redirects@[i].0;
                            assert(h < hops + 1 && followed(redirects@, first, h)
                                == redirects@[i].0);
                        }
                    }
                    hops = hops + 1;
                }
                at = next;
            },
        }
    }
}

/// Whether a resolution ended as resolving the redirects says: with those
/// redirects, or with that error.
pub open spec fn resolves_to(
    result: Result<PathMap<String>, RouterError>,
    expected: Result<Seq<(Seq<char>, Seq<char>)>, RouterError>,
) -> bool {
    match expected {
        Ok(redirects) => result is Ok && result->Ok_0@ == redirects,
        Err(error) => result is Err && result->Err_0 == error,
    }
}

/// Sends every source straight to the end of its redirect chain. Fails with
/// `RedirectCycle` if a chain never ends.
pub fn resolve_chains(redirects: &PathMap<String>) -> (result: Result<PathMap<String>, RouterError>)
    ensures
        resolves_to(result, resolve(redirects@)),
{
    let count: usize = redirects.len();
    let mut entries: Vec<(String, String)> = Vec::new();
    let mut index: usize = 0;
    while index < count
        invariant
            index <= count,
            count == redirects@.len(),
            distinct_keys(redirects@),
            entries@.len() == index,
            forall|i: int|
                0 <= i < index ==> settles(redirects@, (#[trigger] redirects@[i]).1),
            forall|i: int|
                0 <= i < index ==> (#[trigger] entries@[i]).0@ == redirects@[i].0 && entries@[i].1@
                    == final_target(redirects@, redirects@[i].1),
        decreases count - index,
    {
        match follow_chain(redirects, index) {
            None => {
                assert(!settles(redirects@, redirects@[index as int].1));
                return Err(RouterError::RedirectCycle);
            },
            Some(end) => {
                entries.push((redirects.key_at(index).clone(), end));
            },
        }
        index = index + 1;
    }
    proof {
        assert(keyed_by_text(entries@) =~= resolved(redirects@));
        assert forall|i: int, j: int| 0 <= i < j < entries@.len() implies (#[trigger] keyed_by_text(
            entries@,
        )[i]).0 != (#[trigger] keyed_by_text(entries@)[j]).0 by {
            assert(redirects@[i].0 != redirects@[j].0);
        }
    }
    Ok(PathMap::from_entries(entries))
}

impl Router {
    /// Sends every redirect source of the table straight to the end of its
    /// chain. Fails with `RedirectCycle` if a chain never ends.
    pub fn resolve_redirects(&self) -> (result: Result<PathMap<String>, RouterError>)
        ensures
            resolves_to(result, resolve(self@.redirects)),
    {
        resolve_chains(self.declared_redirects())
    }
}

/// Redirects without chains resolve to themselves.
pub proof fn lemma_chain_free_resolves_to_itself(redirects: Seq<(Seq<char>, Seq<char>)>)
    requires
        chain_free(redirects),
    ensures
        resolve(redirects) == Ok::<_, RouterError>(redirects),
{
    assert forall|i: int| 0 <= i < redirects.len() implies settles(
        redirects,
        (#[trigger] redirects[i]).1,
    ) && final_target(redirects, redirects[i].1) == redirects[i].1 by {
        assert(followed(redirects, redirects[i].1, 0) == redirects[i].1);
        lemma_final_target(redirects, redirects[i].1, 0);
    }
    assert(resolved(redirects) =~= redirects);
}

/// Resolved redirects have no chains: no target is a source.
pub proof fn lemma_resolved_is_chain_free(redirects: Seq<(Seq<char>, Seq<char>)>)
    requires
        !has_cycle(redirects),
    ensures
        chain_free(resolved(redirects)),
{
    let flat = resolved(redirects);
    assert forall|i: int| 0 <= i < flat.len() implies !has_key(flat, (#[trigger] flat[i]).1) by {
        let target = redirects[i].1;
        assert(settles(redirects, target));
        let hops = choose|hops: nat| !has_key(redirects, #[trigger] followed(redirects, target, hops));
        assert(!has_key(redirects, flat[i].1));
        if has_key(flat, flat[i].1) {
            let j = choose|j: int| 0 <= j < flat.len() && (#[trigger] flat[j]).0 == flat[i].1;
            assert(redirects[j].0 == flat[i].1);
        }
    }
}

/// Resolving is idempotent: resolving what a resolution gave changes
/// nothing.
pub proof fn lemma_resolve_is_idempotent(redirects: Seq<(Seq<char>, Seq<char>)>)
    requires
        resolve(redirects) is Ok,
    ensures
        resolve(resolve(redirects)->Ok_0) == resolve(redirects),
{
    lemma_resolved_is_chain_free(redirects);
    lemma_chain_free_resolves_to_itself(resolved(redirects));
}

} // verus!
