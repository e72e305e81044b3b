//! The model of a vector clock and the causal relations between clocks.
//!
//! A clock is modelled as a `Map<Seq<char>, nat>`: the identifiers it tracks
//! and the counter of each. An identifier that is not tracked counts as zero
//! in every comparison, yet two clocks are equal only if they track the same
//! identifiers with the same counters.

use vstd::prelude::*;

verus! {

/// The counter of `id` in `m`, where an untracked identifier stands at zero.
pub open spec fn counter(m: Map<Seq<char>, nat>, id: Seq<char>) -> nat {
    if m.dom().contains(id) {
        m[id]
    } else {
        0
    }
}

/// The clock `m` after one more event of `id`.
pub open spec fn bumped(m: Map<Seq<char>, nat>, id: Seq<char>) -> Map<Seq<char>, nat> {
    m.insert(id, counter(m, id) + 1)
}

/// No identifier tracked by `a` stands higher in `a` than in `b`.
pub open spec fn never_ahead(a: Map<Seq<char>, nat>, b: Map<Seq<char>, nat>) -> bool {
    forall|id: Seq<char>| #[trigger] a.dom().contains(id) ==> a[id] <= counter(b, id)
}

/// Some identifier tracked by `a` stands strictly lower in `a` than in `b`.
pub open spec fn behind_somewhere(a: Map<Seq<char>, nat>, b: Map<Seq<char>, nat>) -> bool {
    exists|id: Seq<char>| #[trigger] a.dom().contains(id) && a[id] < counter(b, id)
}

/// `a` happened before `b`.
///
/// Only the identifiers that `a` tracks are looked at: one that `b` alone
/// tracks does not make `a` older.
pub open spec fn precedes(a: Map<Seq<char>, nat>, b: Map<Seq<char>, nat>) -> bool {
    never_ahead(a, b) && behind_somewhere(a, b)
}

/// Neither clock happened before the other. Equal clocks are concurrent.
pub open spec fn concurrent(a: Map<Seq<char>, nat>, b: Map<Seq<char>, nat>) -> bool {
    !precedes(a, b) && !precedes(b, a)
}

/// The larger of two counters.
pub open spec fn larger(x: nat, y: nat) -> nat {
    if x >= y {
        x
    } else {
        y
    }
}

/// The join of two clocks: every identifier of either, at the larger counter.
pub open spec fn merged(a: Map<Seq<char>, nat>, b: Map<Seq<char>, nat>) -> Map<Seq<char>, nat> {
    Map::new(
        |id: Seq<char>| a.dom().contains(id) || b.dom().contains(id),
        |id: Seq<char>| larger(counter(a, id), counter(b, id)),
    )
}

/// An increment drops no identifier and lowers no counter; the counter of
/// its own identifier goes up by one.
pub proof fn lemma_bumped_grows(m: Map<Seq<char>, nat>, id: Seq<char>)
    ensures
        m.dom().subset_of(bumped(m, id).dom()),
        forall|other: Seq<char>| counter(m, other) <= #[trigger] counter(bumped(m, id), other),
        counter(bumped(m, id), id) == counter(m, id) + 1,
{
}

/// An increment always changes the clock.
pub proof fn lemma_bumped_differs(m: Map<Seq<char>, nat>, id: Seq<char>)
    ensures
        bumped(m, id) != m,
{
    assert(bumped(m, id).dom().contains(id));
    assert(bumped(m, id)[id] == counter(m, id) + 1);
    if m.dom().contains(id) {
        assert(m[id] != bumped(m, id)[id]);
    }
}

/// A clock happened before its own increment on an identifier it already
/// tracks.
///
/// For an identifier that the clock does not track yet the relation fails:
/// none of the clock's own counters is then lower than after the increment.
pub proof fn lemma_precedes_bumped(m: Map<Seq<char>, nat>, id: Seq<char>)
    requires
        m.dom().contains(id),
    ensures
        precedes(m, bumped(m, id)),
{
    let n = bumped(m, id);
    assert forall|other: Seq<char>| #[trigger] m.dom().contains(other) implies m[other] <= counter(
        n,
        other,
    ) by {
        assert(n.dom().contains(other));
    }
    assert(m.dom().contains(id) && m[id] < counter(n, id));
}

/// On an identifier that the clock does not track, the increment is not
/// preceded by the clock.
pub proof fn lemma_fresh_bump_not_preceded(m: Map<Seq<char>, nat>, id: Seq<char>)
    requires
        !m.dom().contains(id),
    ensures
        !precedes(m, bumped(m, id)),
{
    let n = bumped(m, id);
    if behind_somewhere(m, n) {
        let other = choose|other: Seq<char>| #[trigger]
            m.dom().contains(other) && m[other] < counter(n, other);
        assert(other != id);
        assert(n[other] == m[other]);
    }
}

/// Merging a clock with itself gives the clock back.
pub proof fn lemma_merged_idempotent(m: Map<Seq<char>, nat>)
    ensures
        merged(m, m) == m,
{
    assert(merged(m, m) =~= m);
}

/// Merging does not depend on the order of its operands.
pub proof fn lemma_merged_commutative(a: Map<Seq<char>, nat>, b: Map<Seq<char>, nat>)
    ensures
        merged(a, b) == merged(b, a),
{
    assert(merged(a, b) =~= merged(b, a));
}

/// In a merge no counter is lower than in either operand.
pub proof fn lemma_merged_dominates(a: Map<Seq<char>, nat>, b: Map<Seq<char>, nat>)
    ensures
        forall|id: Seq<char>| counter(a, id) <= #[trigger] counter(merged(a, b), id),
        forall|id: Seq<char>| counter(b, id) <= #[trigger] counter(merged(a, b), id),
        never_ahead(a, merged(a, b)),
        never_ahead(b, merged(a, b)),
{
}

/// The left operand of a merge happened before the merge or equals it,
/// provided the right operand tracks no identifier that the left one lacks,
/// or the left one is behind the right one on an identifier of its own.
///
/// Where neither holds, the merge differs from the left operand only by
/// identifiers that the left operand does not track, and those do not make it
/// older.
pub proof fn lemma_merged_bounds_left(a: Map<Seq<char>, nat>, b: Map<Seq<char>, nat>)
    requires
        b.dom().subset_of(a.dom()) || behind_somewhere(a, b),
    ensures
        precedes(a, merged(a, b)) || a == merged(a, b),
{
    let m = merged(a, b);
    lemma_merged_dominates(a, b);
    if behind_somewhere(a, b) {
        let id = choose|id: Seq<char>| #[trigger] a.dom().contains(id) && a[id] < counter(b, id);
        assert(a.dom().contains(id) && a[id] < counter(m, id));
    } else {
        assert forall|id: Seq<char>| #[trigger] m.dom().contains(id) implies a.dom().contains(id)
            && m[id] == a[id] by {
            if !a.dom().contains(id) {
                assert(b.dom().contains(id));
            }
            assert(!(a[id] < counter(b, id)));
        }
        assert(a =~= m);
    }
}

/// Where the right operand tracks an identifier that the left one lacks and
/// the left one is nowhere behind, the left operand neither happened before
/// the merge nor equals it.
pub proof fn lemma_merged_beside_left(a: Map<Seq<char>, nat>, b: Map<Seq<char>, nat>)
    requires
        !b.dom().subset_of(a.dom()),
        !behind_somewhere(a, b),
    ensures
        !precedes(a, merged(a, b)),
        a != merged(a, b),
{
    let m = merged(a, b);
    let extra = choose|id: Seq<char>| b.dom().contains(id) && !a.dom().contains(id);
    assert(m.dom().contains(extra));
    if behind_somewhere(a, m) {
        let id = choose|id: Seq<char>| #[trigger] a.dom().contains(id) && a[id] < counter(m, id);
        assert(a.dom().contains(id) && a[id] < counter(b, id));
    }
}

/// The right operand of a merge happened before the merge or equals it,
/// under the mirrored condition.
pub proof fn lemma_merged_bounds_right(a: Map<Seq<char>, nat>, b: Map<Seq<char>, nat>)
    requires
        a.dom().subset_of(b.dom()) || behind_somewhere(b, a),
    ensures
        precedes(b, merged(a, b)) || b == merged(a, b),
{
    lemma_merged_commutative(a, b);
    lemma_merged_bounds_left(b, a);
}

/// Concurrent clocks are not ordered, in either direction.
pub proof fn lemma_concurrent_unordered(a: Map<Seq<char>, nat>, b: Map<Seq<char>, nat>)
    requires
        concurrent(a, b),
    ensures
        !precedes(a, b),
        !precedes(b, a),
{
}

} // verus!
