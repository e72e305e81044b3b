//! The synchronised vector clock: one plain clock behind a reader/writer
//! lock, with the same operations as the plain clock.
//!
//! A reading operation takes shared access for one look at the clock and
//! gives it up before it takes shared access anywhere else, so a thread never
//! holds two guards and both operands of a comparison or a merge may be the
//! same clock. An increment needs the clock exclusively; its `&mut self`
//! proves that no guard is out, and it reaches the clock through the lock
//! without waiting.
//!
//! The lock and its guard are opaque to the verifier. What is believed of
//! them is written down in the declarations at the head of this file;
//! everything below `VectorClock` is proved from those.

use crate::causality::{bumped, concurrent, counter, lemma_bumped_differs, merged, precedes};
use crate::vc;
use std::sync::{RwLock, RwLockReadGuard};
use vstd::prelude::*;
use vstd::std_specs::cmp::PartialEqSpec;

verus! {

/// `std::sync::RwLock`, opaque to the verifier.
#[verifier::external_type_specification]
#[verifier::external_body]
#[verifier::reject_recursive_types(T)]
pub struct ExRwLock<T: ?Sized>(RwLock<T>);

/// `std::sync::RwLockReadGuard`, opaque to the verifier.
#[verifier::external_type_specification]
#[verifier::external_body]
#[verifier::reject_recursive_types(T)]
pub struct ExRwLockReadGuard<'a, T: ?Sized>(RwLockReadGuard<'a, T>);

/// The counters of the clock that the lock protects.
///
/// The protected clock changes only through `exclusive`, which borrows the
/// lock mutably, so under a shared borrow it is a fixed value.
pub uninterp spec fn kept(lock: RwLock<vc::VectorClock>) -> Map<Seq<char>, nat>;

/// Whether the lock is poisoned, as `RwLock::is_poisoned` reports it: a
/// thread panicked while it held the lock for writing.
pub uninterp spec fn poisoned(lock: RwLock<vc::VectorClock>) -> bool;

/// The counters of the clock that the guard gives shared access to.
pub uninterp spec fn guarded(guard: RwLockReadGuard<vc::VectorClock>) -> Map<Seq<char>, nat>;

/// `RwLock::new`: the fresh lock protects the clock it was given and is not
/// poisoned.
#[verifier::external_body]
fn protect(clock: vc::VectorClock) -> (lock: RwLock<vc::VectorClock>)
    ensures
        kept(lock) == clock@,
        !poisoned(lock),
{
    RwLock::new(clock)
}

/// `RwLock::read`, with the guard taken out of its result: the guard gives
/// access to the clock that the lock protects.
///
/// On a poisoned lock `read` returns an error and taking the guard out of it
/// panics; the precondition rules that out. `read` is also free to panic
/// where the calling thread holds the lock already: the callers in this
/// file let go of one guard before they ask for the next.
#[verifier::external_body]
fn read<'a>(lock: &'a RwLock<vc::VectorClock>) -> (guard: RwLockReadGuard<'a, vc::VectorClock>)
    requires
        !poisoned(*lock),
    ensures
        guarded(guard) == kept(*lock),
{
    lock.read().unwrap()
}

/// `Deref::deref` of a read guard: a shared reference to the clock that the
/// guard gives access to.
#[verifier::external_body]
fn peek<'a, 'b>(guard: &'a RwLockReadGuard<'b, vc::VectorClock>) -> (clock: &'a vc::VectorClock)
    ensures
        clock@ == guarded(*guard),
{
    &**guard
}

/// `RwLock::get_mut`, with the reference taken out of its result: the
/// protected clock itself, for as long as the lock is borrowed mutably. What
/// the caller leaves behind the reference is what the lock protects
/// afterwards. The lock is not held for writing meanwhile, so it is as little
/// poisoned after the borrow as before.
///
/// On a poisoned lock `get_mut` returns an error and taking the reference
/// out of it panics; the precondition rules that out, and nothing else in
/// the call unwinds.
#[verifier::external_body]
fn exclusive<'a>(lock: &'a mut RwLock<vc::VectorClock>) -> (clock: &'a mut vc::VectorClock)
    requires
        !poisoned(*old(lock)),
    ensures
        clock@ == kept(*old(lock)),
        kept(*final(lock)) == final(clock)@,
        !poisoned(*final(lock)),
    no_unwind
{
    lock.get_mut().unwrap()
}

/// A vector clock that threads can share.
///
/// Its view is the view of the clock behind the lock.
pub struct VectorClock {
    clock: RwLock<vc::VectorClock>,
}

impl View for VectorClock {
    type V = Map<Seq<char>, nat>;

    closed spec fn view(&self) -> Map<Seq<char>, nat> {
        kept(self.clock)
    }
}

impl VectorClock {
    /// The lock is never poisoned: it is never held for writing.
    #[verifier::type_invariant]
    spec fn sound(self) -> bool {
        !poisoned(self.clock)
    }

    /// A clock that tracks no identifier.
    pub fn new() -> (clock: VectorClock)
        ensures
            clock@ == Map::<Seq<char>, nat>::empty(),
    {
        VectorClock { clock: protect(vc::VectorClock::new()) }
    }

    /// The clock after one more event of `id`. The counter must have room
    /// for the event.
    pub fn inc(self, id: &str) -> (clock: VectorClock)
        requires
            counter(self@, id@) < u64::MAX,
        ensures
            clock@ == bumped(self@, id@),
    {
        let mut clock = self;
        clock.inc_nr(id);
        clock
    }

    /// Counts one more event of `id`; an identifier that was not tracked
    /// starts at one. The counter must have room for the event.
    pub fn inc_nr(&mut self, id: &str)
        requires
            counter(old(self)@, id@) < u64::MAX,
        ensures
            final(self)@ == bumped(old(self)@, id@),
    {
        proof {
            use_type_invariant(&*self);
        }
        let inner = exclusive(&mut self.clock);
        inner.inc_nr(id);
    }

    /// The number of identifiers that the clock tracks.
    pub fn len(&self) -> (n: usize)
        ensures
            self@.dom().finite(),
            n == self@.dom().len(),
    {
        proof {
            use_type_invariant(self);
        }
        let guard = read(&self.clock);
        peek(&guard).len()
    }

    /// Whether this clock happened before `other`: none of its counters is
    /// higher than in `other`, and one of them is lower.
    pub fn preceeds(&self, other: &VectorClock) -> (before: bool)
        ensures
            before == precedes(self@, other@),
    {
        let mine = self.snapshot();
        proof {
            use_type_invariant(other);
        }
        let guard = read(&other.clock);
        mine.preceeds(peek(&guard))
    }

    /// Whether neither clock happened before the other. A clock is
    /// concurrent with every clock equal to it.
    pub fn concurrent(&self, other: &VectorClock) -> (unordered: bool)
        ensures
            unordered == concurrent(self@, other@),
            unordered ==> !precedes(self@, other@) && !precedes(other@, self@),
    {
        let mine = self.snapshot();
        proof {
            use_type_invariant(other);
        }
        let guard = read(&other.clock);
        mine.concurrent(peek(&guard))
    }

    /// The join of the two clocks behind a lock of its own: every identifier
    /// that either tracks, at the larger of its two counters. Neither operand
    /// changes, and both may be the same clock.
    pub fn merge(&self, other: &VectorClock) -> (join: VectorClock)
        ensures
            join@ == merged(self@, other@),
    {
        let mine = self.snapshot();
        proof {
            use_type_invariant(other);
        }
        let guard = read(&other.clock);
        let join = mine.merge(peek(&guard));
        VectorClock { clock: protect(join) }
    }

    /// A copy of the protected clock, taken under one shared access that has
    /// ended when the function returns.
    ///
    /// The operations on two clocks copy the first operand this way and then
    /// look at the second under its own guard.
    fn snapshot(&self) -> (copy: vc::VectorClock)
        ensures
            copy@ == self@,
    {
        proof {
            use_type_invariant(self);
        }
        let guard = read(&self.clock);
        peek(&guard).clone()
    }
}

impl Clone for VectorClock {
    /// A copy behind a lock of its own, sharing nothing with the original.
    fn clone(&self) -> (copy: VectorClock)
        ensures
            copy@ == self@,
    {
        VectorClock { clock: protect(self.snapshot()) }
    }
}

impl PartialEq for VectorClock {
    /// Strict equality: the same identifiers with the same counters.
    fn eq(&self, other: &VectorClock) -> (same: bool) {
        let mine = self.snapshot();
        proof {
            use_type_invariant(other);
        }
        let guard = read(&other.clock);
        mine.eq(peek(&guard))
    }
}

impl vstd::std_specs::cmp::PartialEqSpecImpl for VectorClock {
    open spec fn obeys_eq_spec() -> bool {
        true
    }

    open spec fn eq_spec(&self, other: &VectorClock) -> bool {
        self@ == other@
    }
}

impl Eq for VectorClock {}

/// Every clock equals itself.
pub proof fn lemma_eq_reflexive(clock: VectorClock)
    ensures
        clock.eq_spec(&clock),
{
}

/// A copy equals the clock it was taken from, and no longer does once it has
/// counted one more event, whichever identifier the event belongs to.
pub proof fn lemma_copy_diverges(
    clock: VectorClock,
    copy: VectorClock,
    later: VectorClock,
    id: Seq<char>,
)
    requires
        copy@ == clock@,
        later@ == bumped(copy@, id),
    ensures
        clock.eq_spec(&copy),
        !clock.eq_spec(&later),
{
    lemma_bumped_differs(clock@, id);
}

} // verus!
