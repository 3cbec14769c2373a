//! A value guarded by a borrow counter.
//!
//! The counter follows the protocol of a reference cell that is checked at
//! run time: `0` means no borrow is live, `1..MAX` counts the live shared
//! borrows, and `MAX` marks the one exclusive borrow. Guards are tokens: a
//! successful borrow hands one out, and handing it back releases the borrow.

use vstd::prelude::*;

verus! {

/// The counter value that marks an exclusive borrow.
pub const MUTABLY_BORROWED: usize = usize::MAX;

/// The counter after one more shared borrow, where the cell can grant it.
pub open spec fn after_share(state: usize) -> Option<usize> {
    if state != MUTABLY_BORROWED {
        Some((state + 1) as usize)
    } else {
        None
    }
}

/// The counter after an exclusive borrow, where the cell can grant it.
pub open spec fn after_exclusive(state: usize) -> Option<usize> {
    if state == 0 {
        Some(MUTABLY_BORROWED)
    } else {
        None
    }
}

/// Whether the counter stands for at least one live shared borrow.
pub open spec fn is_shared(state: usize) -> bool {
    1 <= state < MUTABLY_BORROWED
}

/// Whether the counter stands for the exclusive borrow.
pub open spec fn is_exclusive(state: usize) -> bool {
    state == MUTABLY_BORROWED
}

/// A value together with the counter of the borrows that are live on it.
#[derive(Debug)]
pub struct AtomicRefCell<T> {
    borrow: usize,
    data: T,
}

/// Token of one live shared borrow.
#[derive(Debug)]
#[must_use]
pub struct AtomicRef {
    token: (),
}

/// Token of the live exclusive borrow.
#[derive(Debug)]
#[must_use]
pub struct AtomicRefMut {
    token: (),
}

impl<T> AtomicRefCell<T> {
    /// The borrow counter.
    pub closed spec fn state(&self) -> usize {
        self.borrow
    }

    /// The guarded value.
    pub closed spec fn value(&self) -> T {
        self.data
    }

    /// A cell that holds `data`, with no borrow live.
    pub fn new(data: T) -> (cell: Self)
        ensures
            cell.state() == 0,
            cell.value() == data,
    {
        Self { borrow: 0, data }
    }

    /// Gives the value back and forgets the counter.
    pub fn into_inner(self) -> (data: T)
        ensures
            data == self.value(),
    {
        self.data
    }

    /// Direct access for the owner of the cell; the counter is not touched.
    pub fn get_mut(&mut self) -> (data: &mut T)
        ensures
            *data == old(self).value(),
            final(self).value() == *final(data),
            final(self).state() == old(self).state(),
    {
        &mut self.data
    }

    /// The current counter value.
    pub fn borrow_state(&self) -> (state: usize)
        ensures
            state == self.state(),
    {
        self.borrow
    }

    /// Puts `t` into the cell and returns what was there. The cell must be
    /// free of borrows.
    pub fn replace(&mut self, t: T) -> (prev: T)
        requires
            old(self).state() == 0,
        ensures
            prev == old(self).value(),
            final(self).value() == t,
            final(self).state() == 0,
    {
        let mut t = t;
        std::mem::swap(&mut self.data, &mut t);
        t
    }

    /// Calls `f` on the value, puts what `f` returns into the cell, and
    /// returns the value as `f` left it. The cell must be free of borrows.
    pub fn replace_with<F: FnOnce(&mut T) -> T>(&mut self, f: F) -> (prev: T)
        requires
            old(self).state() == 0,
            forall|value: &mut T| *value == old(self).value() ==> call_requires(f, (value,)),
        ensures
            final(self).state() == 0,
            exists|value: &mut T|
                *value == old(self).value() && call_ensures(f, (value,), final(self).value())
                    && prev == *final(value),
    {
        let mut next = f(&mut self.data);
        std::mem::swap(&mut self.data, &mut next);
        next
    }

    /// Exchanges the values of two cells. Both must be free of borrows.
    pub fn swap(&mut self, other: &mut AtomicRefCell<T>)
        requires
            old(self).state() == 0,
            old(other).state() == 0,
        ensures
            final(self).value() == old(other).value(),
            final(other).value() == old(self).value(),
            final(self).state() == 0,
            final(other).state() == 0,
    {
        std::mem::swap(&mut self.data, &mut other.data);
    }

    /// Takes a shared borrow if no exclusive borrow is live.
    pub fn try_borrow(&mut self) -> (guard: Option<AtomicRef>)
        ensures
            guard.is_some() == after_share(old(self).state()).is_some(),
            final(self).state() == match after_share(old(self).state()) {
                Some(next) => next,
                None => old(self).state(),
            },
            final(self).value() == old(self).value(),
    {
        if self.borrow == MUTABLY_BORROWED {
            None
        } else {
            self.borrow = self.borrow + 1;
            Some(AtomicRef { token: () })
        }
    }

    /// Takes a shared borrow. No exclusive borrow may be live.
    pub fn borrow(&mut self) -> (guard: AtomicRef)
        requires
            !is_exclusive(old(self).state()),
        ensures
            after_share(old(self).state()) == Some(final(self).state()),
            final(self).value() == old(self).value(),
    {
        self.borrow = self.borrow + 1;
        AtomicRef { token: () }
    }

    /// Takes the exclusive borrow if no borrow at all is live.
    pub fn try_borrow_mut(&mut self) -> (guard: Option<AtomicRefMut>)
        ensures
            guard.is_some() == after_exclusive(old(self).state()).is_some(),
            final(self).state() == match after_exclusive(old(self).state()) {
                Some(next) => next,
                None => old(self).state(),
            },
            final(self).value() == old(self).value(),
    {
        if self.borrow != 0 {
            None
        } else {
            self.borrow = MUTABLY_BORROWED;
            Some(AtomicRefMut { token: () })
        }
    }

    /// Takes the exclusive borrow. No borrow may be live.
    pub fn borrow_mut(&mut self) -> (guard: AtomicRefMut)
        requires
            old(self).state() == 0,
        ensures
            is_exclusive(final(self).state()),
            final(self).value() == old(self).value(),
    {
        self.borrow = MUTABLY_BORROWED;
        AtomicRefMut { token: () }
    }

    /// Ends the shared borrow that `guard` stands for.
    pub fn release(&mut self, guard: AtomicRef)
        requires
            old(self).state() >= 1,
        ensures
            final(self).state() == old(self).state() - 1,
            final(self).value() == old(self).value(),
    {
        self.borrow = self.borrow - 1;
    }

    /// Ends the exclusive borrow that `guard` stands for.
    pub fn release_mut(&mut self, guard: AtomicRefMut)
        requires
            is_exclusive(old(self).state()),
        ensures
            final(self).state() == 0,
            final(self).value() == old(self).value(),
    {
        self.borrow = 0;
    }

    /// Reads the value on behalf of a guard that the caller has checked.
    pub(crate) fn read_unguarded(&self) -> (data: &T)
        ensures
            *data == self.value(),
    {
        &self.data
    }

    /// Reads the value under a shared borrow.
    pub fn read(&self, guard: &AtomicRef) -> (data: &T)
        ensures
            *data == self.value(),
    {
        &self.data
    }

    /// Reaches the value under the exclusive borrow.
    pub fn write(&mut self, guard: &AtomicRefMut) -> (data: &mut T)
        ensures
            *data == old(self).value(),
            final(self).value() == *final(data),
            final(self).state() == old(self).state(),
    {
        &mut self.data
    }
}

/// What can happen to a cell's counter.
pub enum BorrowEvent {
    /// An attempt to take a shared borrow.
    Share,
    /// An attempt to take the exclusive borrow.
    Exclusive,
    /// A shared guard is handed back.
    ReleaseShared,
    /// The exclusive guard is handed back.
    ReleaseExclusive,
}

/// A counter together with the number of guards of each kind that are out.
pub struct Ledger {
    pub state: usize,
    pub readers: nat,
    pub writers: nat,
}

/// The ledger after one event. A release counts only where a guard of its
/// kind is out; a refused borrow changes nothing.
pub open spec fn ledger_step(ledger: Ledger, event: BorrowEvent) -> Ledger {
    match event {
        BorrowEvent::Share => match after_share(ledger.state) {
            Some(next) => Ledger { state: next, readers: ledger.readers + 1, writers: ledger.writers },
            None => ledger,
        },
        BorrowEvent::Exclusive => match after_exclusive(ledger.state) {
            Some(next) => Ledger { state: next, readers: ledger.readers, writers: ledger.writers + 1 },
            None => ledger,
        },
        BorrowEvent::ReleaseShared => if ledger.readers > 0 {
            Ledger {
                state: (ledger.state - 1) as usize,
                readers: (ledger.readers - 1) as nat,
                writers: ledger.writers,
            }
        } else {
            ledger
        },
        BorrowEvent::ReleaseExclusive => if ledger.writers > 0 {
            Ledger { state: 0, readers: ledger.readers, writers: (ledger.writers - 1) as nat }
        } else {
            ledger
        },
    }
}

/// The ledger of a fresh cell after `events`, in order.
pub open spec fn ledger_after(events: Seq<BorrowEvent>) -> Ledger
    decreases events.len(),
{
    if events.len() == 0 {
        Ledger { state: 0, readers: 0, writers: 0 }
    } else {
        ledger_step(ledger_after(events.drop_last()), events.last())
    }
}

/// Shared and exclusive borrows exclude each other: after any run of events
/// short enough that the counter cannot saturate, at most one exclusive
/// guard is out, never together with a shared one, and the counter tells
/// which: it equals the number of shared guards, or `MAX` for the exclusive
/// one.
pub proof fn lemma_shared_xor_exclusive(events: Seq<BorrowEvent>)
    requires
        events.len() < usize::MAX,
    ensures
        ({
            let ledger = ledger_after(events);
            &&& ledger.writers <= 1
            &&& !(ledger.readers >= 1 && ledger.writers >= 1)
            &&& ledger.readers >= 1 <==> is_shared(ledger.state)
            &&& ledger.writers == 1 <==> is_exclusive(ledger.state)
            &&& ledger.writers == 0 ==> ledger.state == ledger.readers
            &&& ledger.readers <= events.len()
        }),
    decreases events.len(),
{
    if events.len() > 0 {
        lemma_shared_xor_exclusive(events.drop_last());
    }
}

} // verus!
