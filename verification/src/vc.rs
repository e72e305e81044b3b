//! The plain vector clock: one counter per identifier, without any
//! synchronisation of its own.

use crate::causality::{
    bumped, concurrent, counter, larger, lemma_bumped_differs, merged, precedes,
};
use vstd::prelude::*;
use vstd::std_specs::cmp::PartialEqSpec;

verus! {

/// One tracked identifier with its counter.
struct Entry {
    id: String,
    count: u64,
}

impl Clone for Entry {
    fn clone(&self) -> (copy: Entry)
        ensures
            copy == *self,
    {
        Entry { id: self.id.clone(), count: self.count }
    }
}

/// The identifiers of a sequence of entries, in order.
spec fn ids(entries: Seq<Entry>) -> Seq<Seq<char>> {
    entries.map_values(|e: Entry| e.id@)
}

/// The map that a sequence of entries with distinct identifiers stands for.
spec fn as_map(entries: Seq<Entry>) -> Map<Seq<char>, nat> {
    Map::new(
        |id: Seq<char>| ids(entries).contains(id),
        |id: Seq<char>| entries[ids(entries).index_of(id)].count as nat,
    )
}

/// What `as_map` holds for each entry, and which identifiers it tracks.
proof fn lemma_as_map(entries: Seq<Entry>)
    requires
        ids(entries).no_duplicates(),
    ensures
        as_map(entries).dom() == ids(entries).to_set(),
        as_map(entries).dom().finite(),
        as_map(entries).dom().len() == entries.len(),
        forall|i: int|
            0 <= i < entries.len() ==> as_map(entries).dom().contains(#[trigger] entries[i].id@)
                && as_map(entries)[entries[i].id@] == entries[i].count,
        forall|id: Seq<char>| #[trigger]
            as_map(entries).dom().contains(id) ==> exists|i: int|
                0 <= i < entries.len() && #[trigger] entries[i].id@ == id,
{
    let names = ids(entries);
    assert(as_map(entries).dom() =~= names.to_set());
    names.unique_seq_to_set();
    vstd::seq_lib::seq_to_set_is_finite(names);
    assert forall|i: int| 0 <= i < entries.len() implies as_map(entries).dom().contains(
        #[trigger] entries[i].id@,
    ) && as_map(entries)[entries[i].id@] == entries[i].count by {
        assert(names[i] == entries[i].id@);
        assert(names.contains(entries[i].id@));
        let j = names.index_of(entries[i].id@);
        assert(0 <= j < names.len() && names[j] == names[i]);
    }
    assert forall|id: Seq<char>| #[trigger] as_map(entries).dom().contains(id) implies exists|
        i: int,
    |
        0 <= i < entries.len() && #[trigger] entries[i].id@ == id by {
        let j = names.index_of(id);
        assert(0 <= j < names.len() && names[j] == id);
        assert(entries[j].id@ == id);
    }
}

/// Replacing the counter of an entry replaces the counter of its identifier.
proof fn lemma_as_map_update(entries: Seq<Entry>, i: int, entry: Entry)
    requires
        ids(entries).no_duplicates(),
        0 <= i < entries.len(),
        entry.id@ == entries[i].id@,
    ensures
        ids(entries.update(i, entry)) == ids(entries),
        as_map(entries.update(i, entry)) == as_map(entries).insert(entry.id@, entry.count as nat),
{
    let after = entries.update(i, entry);
    assert(ids(after) =~= ids(entries));
    lemma_as_map(entries);
    lemma_as_map(after);
    assert forall|id: Seq<char>| #[trigger]
        as_map(entries).dom().contains(id) && id != entry.id@ implies as_map(after)[id] == as_map(
        entries,
    )[id] by {
        let j = choose|j: int| 0 <= j < entries.len() && #[trigger] entries[j].id@ == id;
        assert(after[j].id@ == id);
    }
    assert(after[i].id@ == entry.id@);
    assert(as_map(after) =~= as_map(entries).insert(entry.id@, entry.count as nat));
}

/// Appending an entry for an untracked identifier adds that identifier.
proof fn lemma_as_map_push(entries: Seq<Entry>, entry: Entry)
    requires
        ids(entries).no_duplicates(),
        !as_map(entries).dom().contains(entry.id@),
    ensures
        ids(entries.push(entry)).no_duplicates(),
        as_map(entries.push(entry)) == as_map(entries).insert(entry.id@, entry.count as nat),
{
    let after = entries.push(entry);
    assert(ids(after) =~= ids(entries).push(entry.id@));
    lemma_as_map(entries);
    assert forall|i: int, j: int|
        0 <= i < ids(after).len() && 0 <= j < ids(after).len() && i != j implies ids(after)[i]
        != ids(after)[j] by {
        if i < entries.len() {
            assert(entries[i].id@ == ids(after)[i]);
        }
        if j < entries.len() {
            assert(entries[j].id@ == ids(after)[j]);
        }
    }
    lemma_as_map(after);
    assert forall|id: Seq<char>| #[trigger] as_map(entries).dom().contains(id) implies as_map(
        after,
    ).dom().contains(id) && as_map(after)[id] == as_map(entries)[id] by {
        let j = choose|j: int| 0 <= j < entries.len() && #[trigger] entries[j].id@ == id;
        assert(after[j].id@ == id);
    }
    assert forall|id: Seq<char>| #[trigger]
        as_map(after).dom().contains(id) && id != entry.id@ implies as_map(entries).dom().contains(
        id,
    ) by {
        let j = choose|j: int| 0 <= j < after.len() && #[trigger] after[j].id@ == id;
        assert(j < entries.len());
        assert(entries[j].id@ == id);
    }
    assert(after[entries.len() as int].id@ == entry.id@);
    assert(as_map(after) =~= as_map(entries).insert(entry.id@, entry.count as nat));
}

/// The entries before position `i` stand for one identifier less than those
/// up to and including it.
proof fn lemma_as_map_take(entries: Seq<Entry>, i: int)
    requires
        ids(entries).no_duplicates(),
        0 <= i < entries.len(),
    ensures
        ids(entries.take(i)).no_duplicates(),
        !as_map(entries.take(i)).dom().contains(entries[i].id@),
        as_map(entries.take(i + 1)) == as_map(entries.take(i)).insert(
            entries[i].id@,
            entries[i].count as nat,
        ),
{
    let before = entries.take(i);
    assert(ids(before) =~= ids(entries).take(i));
    assert forall|j: int, k: int|
        0 <= j < ids(before).len() && 0 <= k < ids(before).len() && j != k implies ids(before)[j]
        != ids(before)[k] by {
        assert(ids(before)[j] == ids(entries)[j]);
        assert(ids(before)[k] == ids(entries)[k]);
    }
    lemma_as_map(before);
    if as_map(before).dom().contains(entries[i].id@) {
        let j = choose|j: int| 0 <= j < before.len() && #[trigger] before[j].id@ == entries[i].id@;
        assert(ids(entries)[j] == ids(entries)[i]);
    }
    assert(entries.take(i + 1) =~= before.push(entries[i]));
    lemma_as_map_push(before, entries[i]);
}

/// Merging in one more identifier of the left operand raises that
/// identifier's counter in the merge, and nothing else.
proof fn lemma_merged_insert(
    a: Map<Seq<char>, nat>,
    b: Map<Seq<char>, nat>,
    id: Seq<char>,
    count: nat,
)
    requires
        !a.dom().contains(id),
    ensures
        merged(a.insert(id, count), b) == merged(a, b).insert(
            id,
            larger(counter(merged(a, b), id), count),
        ),
{
    let left = merged(a.insert(id, count), b);
    let right = merged(a, b).insert(id, larger(counter(merged(a, b), id), count));
    assert forall|other: Seq<char>| #[trigger] left.dom().contains(other) implies left[other]
        == right[other] by {
        if other != id {
            assert(counter(a.insert(id, count), other) == counter(a, other));
        }
    }
    assert(left =~= right);
}

/// A vector clock: a counter for each identifier that it tracks.
///
/// Its view is the map from the tracked identifiers to their counters.
pub struct VectorClock {
    entries: Vec<Entry>,
}

impl View for VectorClock {
    type V = Map<Seq<char>, nat>;

    closed spec fn view(&self) -> Map<Seq<char>, nat> {
        as_map(self.entries@)
    }
}

impl VectorClock {
    /// No identifier has two entries.
    #[verifier::type_invariant]
    spec fn distinct(self) -> bool {
        ids(self.entries@).no_duplicates()
    }

    /// A clock that tracks no identifier.
    pub fn new() -> (clock: VectorClock)
        ensures
            clock@ == Map::<Seq<char>, nat>::empty(),
    {
        let clock = VectorClock { entries: Vec::new() };
        assert(clock@ =~= Map::<Seq<char>, nat>::empty());
        clock
    }

    /// The number of identifiers that the clock tracks.
    pub fn len(&self) -> (n: usize)
        ensures
            self@.dom().finite(),
            n == self@.dom().len(),
    {
        proof {
            use_type_invariant(self);
            lemma_as_map(self.entries@);
        }
        self.entries.len()
    }

    /// Counts one more event of `id`; an identifier that was not tracked
    /// starts at one. The counter must have room for the event.
    pub fn inc_nr(&mut self, id: &str)
        requires
            counter(old(self)@, id@) < u64::MAX,
        ensures
            final(self)@ == bumped(old(self)@, id@),
    {
        let key = id.to_owned();
        proof {
            use_type_invariant(&*self);
            lemma_as_map(self.entries@);
        }
        let found = self.position(&key);
        let mut entries: Vec<Entry> = Vec::new();
        std::mem::swap(&mut entries, &mut self.entries);
        match found {
            Some(i) => {
                let entry = &mut entries[i];
                entry.count = entry.count + 1;
                proof {
                    lemma_as_map_update(old(self).entries@, i as int, entries[i as int]);
                    assert(entries@ =~= old(self).entries@.update(i as int, entries[i as int]));
                }
            },
            None => {
                let entry = Entry { id: key, count: 1 };
                proof {
                    lemma_as_map_push(entries@, entry);
                }
                entries.push(entry);
            },
        }
        self.entries = entries;
    }

    /// The clock after one more event of `id`. The counter must have room
    /// for the event.
    pub fn inc(self, id: &str) -> (clock: VectorClock)
        requires
            counter(self@, id@) < u64::MAX,
        ensures
            clock@ == bumped(self@, id@),
    {
        let mut clock = self;
        clock.inc_nr(id);
        clock
    }

    /// Whether this clock happened before `other`: none of its counters is
    /// higher than in `other`, and one of them is lower.
    pub fn preceeds(&self, other: &VectorClock) -> (before: bool)
        ensures
            before == precedes(self@, other@),
    {
        let mut strict_lt = false;
        let mut i: usize = 0;
        while i < self.entries.len()
            invariant
                i <= self.entries.len(),
                forall|j: int|
                    0 <= j < i ==> self.entries[j].count <= counter(other@, self.entries[j].id@),
                strict_lt <==> exists|j: int|
                    0 <= j < i && self.entries[j].count < counter(other@, self.entries[j].id@),
            decreases self.entries.len() - i,
        {
            let entry = &self.entries[i];
            let theirs = other.count_of(&entry.id);
            if entry.count < theirs {
                strict_lt = true;
            } else if entry.count > theirs {
                proof {
                    use_type_invariant(self);
                    lemma_as_map(self.entries@);
                    assert(self@.dom().contains(entry.id@));
                }
                return false;
            }
            i += 1;
        }
        proof {
            use_type_invariant(self);
            lemma_as_map(self.entries@);
            if strict_lt {
                let j = choose|j: int|
                    0 <= j < i && self.entries[j].count < counter(other@, self.entries[j].id@);
                assert(self@.dom().contains(self.entries[j].id@));
            }
        }
        strict_lt
    }

    /// Whether neither clock happened before the other. A clock is
    /// concurrent with every clock equal to it.
    pub fn concurrent(&self, other: &VectorClock) -> (unordered: bool)
        ensures
            unordered == concurrent(self@, other@),
            unordered ==> !precedes(self@, other@) && !precedes(other@, self@),
    {
        !self.preceeds(other) && !other.preceeds(self)
    }

    /// The join of the two clocks: every identifier that either tracks, at
    /// the larger of its two counters. Neither operand changes.
    pub fn merge(&self, other: &VectorClock) -> (join: VectorClock)
        ensures
            join@ == merged(self@, other@),
    {
        let mut join = other.clone();
        let mut i: usize = 0;
        proof {
            assert(as_map(self.entries@.take(0)) =~= Map::<Seq<char>, nat>::empty());
            assert(merged(Map::<Seq<char>, nat>::empty(), other@) =~= other@);
        }
        while i < self.entries.len()
            invariant
                i <= self.entries.len(),
                join@ == merged(as_map(self.entries@.take(i as int)), other@),
            decreases self.entries.len() - i,
        {
            proof {
                use_type_invariant(self);
                lemma_as_map_take(self.entries@, i as int);
                lemma_merged_insert(
                    as_map(self.entries@.take(i as int)),
                    other@,
                    self.entries[i as int].id@,
                    self.entries[i as int].count as nat,
                );
            }
            join.raise(&self.entries[i]);
            i += 1;
        }
        proof {
            assert(self.entries@.take(i as int) =~= self.entries@);
        }
        join
    }

    /// Lifts the counter of the entry's identifier to the entry's counter
    /// where it stands lower, tracking the identifier if need be.
    fn raise(&mut self, entry: &Entry)
        ensures
            final(self)@ == old(self)@.insert(
                entry.id@,
                larger(counter(old(self)@, entry.id@), entry.count as nat),
            ),
    {
        proof {
            use_type_invariant(&*self);
            lemma_as_map(self.entries@);
        }
        let found = self.position(&entry.id);
        let mut entries: Vec<Entry> = Vec::new();
        std::mem::swap(&mut entries, &mut self.entries);
        match found {
            Some(i) => {
                let mine = &mut entries[i];
                if mine.count < entry.count {
                    mine.count = entry.count;
                }
                proof {
                    lemma_as_map_update(old(self).entries@, i as int, entries[i as int]);
                    assert(entries@ =~= old(self).entries@.update(i as int, entries[i as int]));
                }
            },
            None => {
                let fresh = entry.clone();
                proof {
                    lemma_as_map_push(entries@, fresh);
                }
                entries.push(fresh);
            },
        }
        self.entries = entries;
    }

    /// The counter of `id`, zero where it is not tracked.
    fn count_of(&self, id: &String) -> (count: u64)
        ensures
            count == counter(self@, id@),
    {
        proof {
            use_type_invariant(self);
            lemma_as_map(self.entries@);
        }
        match self.position(id) {
            Some(i) => self.entries[i].count,
            None => 0,
        }
    }

    /// Where `id` stands among the entries, if it is tracked.
    fn position(&self, id: &String) -> (at: Option<usize>)
        ensures
            match at {
                Some(i) => i < self.entries.len() && self.entries[i as int].id@ == id@,
                None => !self@.dom().contains(id@),
            },
    {
        let mut i: usize = 0;
        while i < self.entries.len()
            invariant
                i <= self.entries.len(),
                forall|j: int| 0 <= j < i ==> self.entries[j].id@ != id@,
            decreases self.entries.len() - i,
        {
            if self.entries[i].id == *id {
                return Some(i);
            }
            i += 1;
        }
        proof {
            use_type_invariant(self);
            lemma_as_map(self.entries@);
        }
        None
    }
}

impl Clone for VectorClock {
    /// A copy with entries of its own: what happens to it later leaves this
    /// clock as it is.
    fn clone(&self) -> (copy: VectorClock)
        ensures
            copy@ == self@,
    {
        let mut entries: Vec<Entry> = Vec::new();
        let mut i: usize = 0;
        while i < self.entries.len()
            invariant
                i <= self.entries.len(),
                entries@ == self.entries@.take(i as int),
            decreases self.entries.len() - i,
        {
            entries.push(self.entries[i].clone());
            proof {
                assert(entries@ =~= self.entries@.take(i + 1));
            }
            i += 1;
        }
        proof {
            use_type_invariant(self);
            assert(entries@ =~= self.entries@);
        }
        VectorClock { entries }
    }
}

impl Default for VectorClock {
    /// The empty clock.
    fn default() -> (clock: VectorClock)
        ensures
            clock@ == Map::<Seq<char>, nat>::empty(),
    {
        VectorClock::new()
    }
}

impl PartialEq for VectorClock {
    /// Strict equality: the same identifiers with the same counters.
    fn eq(&self, other: &VectorClock) -> (same: bool) {
        proof {
            use_type_invariant(self);
            use_type_invariant(other);
            lemma_as_map(self.entries@);
            lemma_as_map(other.entries@);
        }
        if self.len() != other.len() {
            return false;
        }
        let mut i: usize = 0;
        while i < self.entries.len()
            invariant
                i <= self.entries.len(),
                forall|j: int|
                    0 <= j < i ==> other@.dom().contains(#[trigger] self.entries[j].id@)
                        && other@[self.entries[j].id@] == self.entries[j].count,
            decreases self.entries.len() - i,
        {
            let entry = &self.entries[i];
            proof {
                use_type_invariant(self);
                use_type_invariant(other);
                lemma_as_map(self.entries@);
                lemma_as_map(other.entries@);
            }
            match other.position(&entry.id) {
                Some(j) => {
                    if other.entries[j].count != entry.count {
                        return false;
                    }
                },
                None => {
                    return false;
                },
            }
            i += 1;
        }
        proof {
            assert forall|id: Seq<char>| #[trigger] self@.dom().contains(id) implies other@.dom().contains(
                id,
            ) && other@[id] == self@[id] by {
                let j = choose|j: int|
                    0 <= j < self.entries.len() && #[trigger] self.entries[j].id@ == id;
                assert(other@.dom().contains(self.entries[j].id@));
            }
            vstd::set_lib::lemma_subset_equality(self@.dom(), other@.dom());
            assert(self@ =~= other@);
        }
        true
    }
}

impl vstd::std_specs::cmp::PartialEqSpecImpl for VectorClock {
    open spec fn obeys_eq_spec() -> bool {
        true
    }

    open spec fn eq_spec(&self, other: &VectorClock) -> bool {
        self@ == other@
    }
}

impl Eq for VectorClock {}

/// Every clock equals itself.
pub proof fn lemma_eq_reflexive(clock: VectorClock)
    ensures
        clock.eq_spec(&clock),
{
}

/// A copy equals the clock it was taken from, and no longer does once it has
/// counted one more event, whichever identifier the event belongs to.
pub proof fn lemma_copy_diverges(
    clock: VectorClock,
    copy: VectorClock,
    later: VectorClock,
    id: Seq<char>,
)
    requires
        copy@ == clock@,
        later@ == bumped(copy@, id),
    ensures
        clock.eq_spec(&copy),
        !clock.eq_spec(&later),
{
    lemma_bumped_differs(clock@, id);
}

} // verus!
