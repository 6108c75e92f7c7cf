//! Entries keyed by path, as mathematical sequences: what it is for a key to
//! be among them, to place a value under a key, to put a prefix before the
//! keys, and what holds of these.

use vstd::prelude::*;

verus! {


/// Whether one of `entries` has the key `key`.
pub open spec fn has_key<V>(entries: Seq<(Seq<char>, V)>, key: Seq<char>) -> bool {
    exists|i: int| 0 <= i < entries.len() && (#[trigger] entries[i]).0 == key
}

/// Whether no two of `entries` have the same key.
pub open spec fn distinct_keys<V>(entries: Seq<(Seq<char>, V)>) -> bool {
    forall|i: int, j: int|
        0 <= i < j < entries.len() ==> (#[trigger] entries[i]).0 != (#[trigger] entries[j]).0
}

/// The position of the first of `entries` with the key `key`, or the number
/// of entries where there is none.
pub open spec fn position_of<V>(entries: Seq<(Seq<char>, V)>, key: Seq<char>) -> int
    decreases entries.len(),
{
    if entries.len() == 0 {
        0
    } else if entries[0].0 == key {
        0
    } else {
        1 + position_of(entries.skip(1), key)
    }
}

/// The keys of `entries`, in order.
pub open spec fn keys_of<V>(entries: Seq<(Seq<char>, V)>) -> Seq<Seq<char>> {
    Seq::new(entries.len(), |i: int| entries[i].0)
}

/// `entries` with `value` placed under `key`: in place of the entry that has
/// the key, or at the end where none has it.
pub open spec fn placed<V>(entries: Seq<(Seq<char>, V)>, key: Seq<char>, value: V) -> Seq<
    (Seq<char>, V),
> {
    if has_key(entries, key) {
        entries.update(position_of(entries, key), (key, value))
    } else {
        entries.push((key, value))
    }
}

/// `entries` with `prefix` put before each key.
pub open spec fn with_prefix<V>(entries: Seq<(Seq<char>, V)>, prefix: Seq<char>) -> Seq<
    (Seq<char>, V),
> {
    Seq::new(entries.len(), |i: int| (prefix + entries[i].0, entries[i].1))
}

/// Whether a key of `left` is also a key of `right`.
pub open spec fn keys_overlap<V, W>(
    left: Seq<(Seq<char>, V)>,
    right: Seq<(Seq<char>, W)>,
) -> bool {
    exists|i: int| 0 <= i < right.len() && has_key(left, (#[trigger] right[i]).0)
}

/// Putting the same prefix before two keys keeps them apart.
pub proof fn lemma_prefix_keeps_apart(prefix: Seq<char>, first: Seq<char>, second: Seq<char>)
    requires
        prefix + first == prefix + second,
    ensures
        first == second,
{
    assert(first =~= (prefix + first).skip(prefix.len() as int));
    assert(second =~= (prefix + second).skip(prefix.len() as int));
}

/// Putting a prefix before each key keeps the keys distinct.
pub proof fn lemma_with_prefix_distinct<V>(entries: Seq<(Seq<char>, V)>, prefix: Seq<char>)
    requires
        distinct_keys(entries),
    ensures
        distinct_keys(with_prefix(entries, prefix)),
{
    let moved = with_prefix(entries, prefix);
    assert forall|i: int, j: int| 0 <= i < j < moved.len() implies (#[trigger] moved[i]).0 != (
    #[trigger] moved[j]).0 by {
        if moved[i].0 == moved[j].0 {
            lemma_prefix_keeps_apart(prefix, entries[i].0, entries[j].0);
            assert(entries[i].0 != entries[j].0);
        }
    }
}

/// Joining collections that share no key keeps the keys distinct.
pub proof fn lemma_joined_distinct<V>(left: Seq<(Seq<char>, V)>, right: Seq<(Seq<char>, V)>)
    requires
        distinct_keys(left),
        distinct_keys(right),
        !keys_overlap(left, right),
    ensures
        distinct_keys(left + right),
{
    let all = left + right;
    assert forall|i: int, j: int| 0 <= i < j < all.len() implies (#[trigger] all[i]).0 != (
    #[trigger] all[j]).0 by {
        if j < left.len() {
            assert(left[i].0 != left[j].0);
        } else if i >= left.len() {
            assert(right[i - left.len()].0 != right[j - left.len()].0);
        } else {
            assert(all[j] == right[j - left.len()]);
            if left[i].0 == right[j - left.len()].0 {
                assert(has_key(left, right[j - left.len()].0));
            }
        }
    }
}

/// The position of a key is that of the first entry with the key: within
/// the entries exactly when the key is among them, and behind only entries
/// with other keys.
pub proof fn lemma_position_of<V>(entries: Seq<(Seq<char>, V)>, key: Seq<char>)
    ensures
        0 <= position_of(entries, key) <= entries.len(),
        has_key(entries, key) <==> position_of(entries, key) < entries.len(),
        position_of(entries, key) < entries.len() ==> entries[position_of(entries, key)].0 == key,
        forall|i: int| 0 <= i < position_of(entries, key) ==> (#[trigger] entries[i]).0 != key,
    decreases entries.len(),
{
    if entries.len() == 0 {
    } else if entries[0].0 == key {
    } else {
        let rest = entries.skip(1);
        lemma_position_of(rest, key);
        assert forall|i: int| 0 <= i < position_of(entries, key) implies (#[trigger] entries[i]).0
            != key by {
            if i > 0 {
                assert(entries[i] == rest[i - 1]);
            }
        }
        if position_of(rest, key) < rest.len() {
            assert(entries[position_of(entries, key)] == rest[position_of(rest, key)]);
        }
        if has_key(entries, key) {
            let i = choose|i: int| 0 <= i < entries.len() && (#[trigger] entries[i]).0 == key;
            assert(rest[i - 1] == entries[i]);
        }
    }
}

/// Placing a value under a key keeps the keys distinct, has the key among
/// them, and changes nothing about the other keys.
pub proof fn lemma_placed_distinct<V>(entries: Seq<(Seq<char>, V)>, key: Seq<char>, value: V)
    requires
        distinct_keys(entries),
    ensures
        distinct_keys(placed(entries, key, value)),
        has_key(placed(entries, key, value), key),
        forall|other: Seq<char>|
            other != key ==> (has_key(placed(entries, key, value), other) <==> has_key(
                entries,
                other,
            )),
{
    lemma_position_of(entries, key);
    let after = placed(entries, key, value);
    let at = position_of(entries, key);
    assert(after[at] == (key, value));
    assert forall|i: int, j: int| 0 <= i < j < after.len() implies (#[trigger] after[i]).0 != (
    #[trigger] after[j]).0 by {
        if i < entries.len() && j < entries.len() {
            assert(entries[i].0 != entries[j].0);
            assert(after[i].0 == entries[i].0);
            assert(after[j].0 == entries[j].0);
        } else {
            assert(after[i].0 == entries[i].0);
        }
    }
    assert forall|other: Seq<char>| other != key implies (has_key(after, other) <==> has_key(
        entries,
        other,
    )) by {
        if has_key(after, other) {
            let i = choose|i: int| 0 <= i < after.len() && (#[trigger] after[i]).0 == other;
            assert(entries[i].0 == other);
        }
        if has_key(entries, other) {
            let i = choose|i: int| 0 <= i < entries.len() && (#[trigger] entries[i]).0 == other;
            assert(after[i].0 == other);
        }
    }
}

/// Whether two collections have the same keys in the same order.
pub open spec fn same_keys<V, W>(left: Seq<(Seq<char>, V)>, right: Seq<(Seq<char>, W)>) -> bool {
    &&& left.len() == right.len()
    &&& forall|i: int| 0 <= i < left.len() ==> (#[trigger] left[i]).0 == (#[trigger] right[i]).0
}

/// Collections with the same keys agree on which keys they have and where.
pub proof fn lemma_same_keys<V, W>(
    left: Seq<(Seq<char>, V)>,
    right: Seq<(Seq<char>, W)>,
    key: Seq<char>,
)
    requires
        same_keys(left, right),
    ensures
        has_key(left, key) <==> has_key(right, key),
        position_of(left, key) == position_of(right, key),
    decreases left.len(),
{
    if has_key(left, key) {
        let i = choose|i: int| 0 <= i < left.len() && (#[trigger] left[i]).0 == key;
        assert(right[i].0 == key);
    }
    if has_key(right, key) {
        let i = choose|i: int| 0 <= i < right.len() && (#[trigger] right[i]).0 == key;
        assert(left[i].0 == key);
    }
    if left.len() > 0 {
        assert(left[0].0 == right[0].0);
        if left[0].0 != key {
            let less = left.skip(1);
            let fewer = right.skip(1);
            assert forall|i: int| 0 <= i < less.len() implies (#[trigger] less[i]).0 == (
            #[trigger] fewer[i]).0 by {
                assert(left[i + 1].0 == right[i + 1].0);
            }
            lemma_same_keys(less, fewer, key);
        }
    }
}

/// Collections with the same keys overlap the same collections, and have
/// distinct keys together.
pub proof fn lemma_same_keys_overlap<V, W, X, Y>(
    left: Seq<(Seq<char>, V)>,
    like_left: Seq<(Seq<char>, W)>,
    right: Seq<(Seq<char>, X)>,
    like_right: Seq<(Seq<char>, Y)>,
)
    requires
        same_keys(left, like_left),
        same_keys(right, like_right),
    ensures
        keys_overlap(left, right) <==> keys_overlap(like_left, like_right),
        distinct_keys(left) <==> distinct_keys(like_left),
{
    if keys_overlap(left, right) {
        let i = choose|i: int| 0 <= i < right.len() && has_key(left, (#[trigger] right[i]).0);
        lemma_same_keys(left, like_left, right[i].0);
        assert(has_key(like_left, like_right[i].0));
    }
    if keys_overlap(like_left, like_right) {
        let i = choose|i: int|
            0 <= i < like_right.len() && has_key(like_left, (#[trigger] like_right[i]).0);
        lemma_same_keys(left, like_left, like_right[i].0);
        assert(has_key(left, right[i].0));
    }
    if distinct_keys(left) {
        assert forall|i: int, j: int| 0 <= i < j < like_left.len() implies (
        #[trigger] like_left[i]).0 != (#[trigger] like_left[j]).0 by {
            assert(left[i].0 != left[j].0);
        }
    }
    if distinct_keys(like_left) {
        assert forall|i: int, j: int| 0 <= i < j < left.len() implies (#[trigger] left[i]).0 != (
        #[trigger] left[j]).0 by {
            assert(like_left[i].0 != like_left[j].0);
        }
    }
}

/// Placing under the same key keeps the same keys.
pub proof fn lemma_placed_same_keys<V, W>(
    left: Seq<(Seq<char>, V)>,
    right: Seq<(Seq<char>, W)>,
    key: Seq<char>,
    value: V,
    other: W,
)
    requires
        same_keys(left, right),
    ensures
        same_keys(placed(left, key, value), placed(right, key, other)),
        has_key(left, key) ==> 0 <= position_of(left, key) < left.len(),
        position_of(left, key) == position_of(right, key),
        has_key(left, key) <==> has_key(right, key),
{
    lemma_same_keys(left, right, key);
    lemma_position_of(left, key);
    let after = placed(left, key, value);
    let beside = placed(right, key, other);
    assert forall|i: int| 0 <= i < after.len() implies (#[trigger] after[i]).0 == (
    #[trigger] beside[i]).0 by {
        if i < left.len() {
            assert(left[i].0 == right[i].0);
        }
    }
}

/// A key is among extended entries when it was there before or is the new one.
pub proof fn lemma_has_key_push<V>(
    entries: Seq<(Seq<char>, V)>,
    key: Seq<char>,
    value: V,
    wanted: Seq<char>,
)
    ensures
        has_key(entries.push((key, value)), wanted) <==> has_key(entries, wanted) || wanted == key,
{
    let longer = entries.push((key, value));
    if has_key(longer, wanted) {
        let i = choose|i: int| 0 <= i < longer.len() && (#[trigger] longer[i]).0 == wanted;
        if i < entries.len() {
            assert(entries[i].0 == wanted);
        }
    }
    if has_key(entries, wanted) {
        let i = choose|i: int| 0 <= i < entries.len() && (#[trigger] entries[i]).0 == wanted;
        assert(longer[i].0 == wanted);
    }
    if wanted == key {
        assert(longer[entries.len() as int].0 == wanted);
    }
}

/// A key is among joined entries when it is among those of either part.
pub proof fn lemma_has_key_join<V>(
    left: Seq<(Seq<char>, V)>,
    right: Seq<(Seq<char>, V)>,
    wanted: Seq<char>,
)
    ensures
        has_key(left + right, wanted) <==> has_key(left, wanted) || has_key(right, wanted),
{
    let all = left + right;
    if has_key(all, wanted) {
        let i = choose|i: int| 0 <= i < all.len() && (#[trigger] all[i]).0 == wanted;
        if i < left.len() {
            assert(left[i].0 == wanted);
        } else {
            assert(right[i - left.len()].0 == wanted);
        }
    }
    if has_key(left, wanted) {
        let i = choose|i: int| 0 <= i < left.len() && (#[trigger] left[i]).0 == wanted;
        assert(all[i].0 == wanted);
    }
    if has_key(right, wanted) {
        let i = choose|i: int| 0 <= i < right.len() && (#[trigger] right[i]).0 == wanted;
        assert(all[i + left.len()].0 == wanted);
    }
}

/// Two collections overlap exactly when some key is among both.
pub proof fn lemma_overlap_is_shared_key<V, W>(
    left: Seq<(Seq<char>, V)>,
    right: Seq<(Seq<char>, W)>,
)
    ensures
        keys_overlap(left, right) <==> exists|key: Seq<char>| #[trigger]
            has_key(left, key) && has_key(right, key),
{
    if keys_overlap(left, right) {
        let i = choose|i: int| 0 <= i < right.len() && has_key(left, (#[trigger] right[i]).0);
        assert(has_key(left, right[i].0) && has_key(right, right[i].0));
    }
    if exists|key: Seq<char>| #[trigger] has_key(left, key) && has_key(right, key) {
        let key = choose|key: Seq<char>| #[trigger] has_key(left, key) && has_key(right, key);
        let i = choose|i: int| 0 <= i < right.len() && (#[trigger] right[i]).0 == key;
        assert(has_key(left, right[i].0));
    }
}

/// The keys below a prefix are the former keys behind that prefix.
pub proof fn lemma_has_key_with_prefix<V>(
    entries: Seq<(Seq<char>, V)>,
    prefix: Seq<char>,
    wanted: Seq<char>,
)
    ensures
        has_key(with_prefix(entries, prefix), wanted) <==> exists|i: int|
            0 <= i < entries.len() && wanted == prefix + (#[trigger] entries[i]).0,
{
    let moved = with_prefix(entries, prefix);
    if has_key(moved, wanted) {
        let i = choose|i: int| 0 <= i < moved.len() && (#[trigger] moved[i]).0 == wanted;
        assert(wanted == prefix + entries[i].0);
    }
    if exists|i: int| 0 <= i < entries.len() && wanted == prefix + (#[trigger] entries[i]).0 {
        let i = choose|i: int|
            0 <= i < entries.len() && wanted == prefix + (#[trigger] entries[i]).0;
        assert(moved[i].0 == wanted);
    }
}

} // verus!
