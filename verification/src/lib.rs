//! A single-value cell with atomic-register semantics.
//!
//! An [`Atom`] holds one logical value of a clonable type and is mutated only
//! through whole-value steps: an unconditional `reset` or a functional `swap`.
//! Readers always see some complete value that was installed by one such step,
//! never a mixture of two, and the values the cell passes through form a strict
//! total order, recorded here as a ghost history sequence.
//!
//! The cell is specified against that linearized history: every concurrent
//! schedule of resets, swaps and reads is equivalent to some sequential order
//! of the same operations, and the laws in [`laws`] quantify over all such
//! orders. The operations here act on an exclusively owned cell; a shell that
//! shares one cell between threads through an atomic pointer cannot be checked
//! by the verifier and lives outside the library.

use vstd::prelude::*;

pub mod laws;

verus! {

/// A cell holding a single logical value of a clonable type.
///
/// The current value is the last entry of a ghost history that records every
/// value the cell has held, oldest first. Reads hand out independent copies,
/// so a caller never holds the cell's own storage.
pub struct Atom<T: Clone> {
    value: T,
    hist: Ghost<Seq<T>>,
}

impl<T: Clone> Atom<T> {
    /// The value the cell currently holds.
    pub closed spec fn current(self) -> T {
        self.value
    }

    /// Every value the cell has held so far, oldest first.
    pub closed spec fn history(self) -> Seq<T> {
        self.hist@
    }

    /// The cell is never empty, and the newest history entry is the current
    /// value: reads see exactly the last installed value.
    pub open spec fn wf(self) -> bool {
        self.history().len() > 0 && self.history().last() == self.current()
    }

    /// Creates a cell holding `value`, which becomes the whole history.
    pub fn new(value: T) -> (cell: Atom<T>)
        ensures
            cell.wf(),
            cell.current() == value,
            cell.history() == seq![value],
    {
        let ghost initial: Seq<T> = seq![value];
        Atom { value, hist: Ghost(initial) }
    }

    /// Returns an independent copy of the current value.
    ///
    /// The cell is untouched: reading any number of times with no intervening
    /// `reset` or `swap` keeps handing out copies of the same value.
    pub fn deref(&self) -> (copy_out: T)
        ensures
            cloned(self.current(), copy_out),
    {
        self.value.clone()
    }

    /// Unconditionally installs a copy of `new_value` as the current value and
    /// echoes `new_value` back.
    ///
    /// A reset never merges with the value it replaces: it appends exactly one
    /// step to the history, and that step is the new current value, whatever
    /// the cell held before.
    pub fn reset(&mut self, new_value: T) -> (echoed: T)
        requires
            old(self).wf(),
        ensures
            final(self).wf(),
            cloned(new_value, final(self).current()),
            final(self).history() == old(self).history().push(final(self).current()),
            echoed == new_value,
    {
        let stored = new_value.clone();
        self.value = stored;
        self.hist = Ghost(self.hist@.push(self.value));
        new_value
    }

    /// Replaces the current value by the result of applying `f` to a copy of
    /// it, and returns an independent copy of the installed value.
    ///
    /// `f` must accept every copy of the current value, and it must be a pure
    /// function of its input: under contention a shared shell around this cell
    /// retries the whole step, so `f` may run more than once per logical call,
    /// and runs that lose the race are discarded after having executed. Only
    /// the copy passed in is ever shown to `f`; the cell's own storage stays
    /// private.
    pub fn swap<F: Fn(&T) -> T>(&mut self, f: &F) -> (installed: T)
        requires
            old(self).wf(),
            forall|snapshot: T|
                cloned(old(self).current(), snapshot) ==> call_requires(*f, (&snapshot,)),
        ensures
            final(self).wf(),
            swaps_to(*f, old(self).current(), final(self).current()),
            cloned(final(self).current(), installed),
            final(self).history() == old(self).history().push(final(self).current()),
    {
        let snapshot = self.value.clone();
        let candidate = f(&snapshot);
        let copy_out = candidate.clone();
        self.value = candidate;
        self.hist = Ghost(self.hist@.push(self.value));
        proof {
            assert(cloned(old(self).current(), snapshot)
                && call_ensures(*f, (&snapshot,), self.current()));
        }
        copy_out
    }

    /// The same step as [`Atom::swap`], for callers who have no use for the
    /// installed value: the identical protocol runs, and no copy is handed
    /// back. The purity obligation on `f` is the same.
    pub fn swap_discard<F: Fn(&T) -> T>(&mut self, f: &F)
        requires
            old(self).wf(),
            forall|snapshot: T|
                cloned(old(self).current(), snapshot) ==> call_requires(*f, (&snapshot,)),
        ensures
            final(self).wf(),
            swaps_to(*f, old(self).current(), final(self).current()),
            final(self).history() == old(self).history().push(final(self).current()),
    {
        let snapshot = self.value.clone();
        let candidate = f(&snapshot);
        self.value = candidate;
        self.hist = Ghost(self.hist@.push(self.value));
        proof {
            assert(cloned(old(self).current(), snapshot)
                && call_ensures(*f, (&snapshot,), self.current()));
        }
    }
}

/// Holds when one `swap` step with `f` can take the cell from value `before`
/// to value `after`: `after` is what `f` returned on some copy of `before`.
pub open spec fn swaps_to<T: Clone, F: Fn(&T) -> T>(f: F, before: T, after: T) -> bool {
    exists|snapshot: T| #[trigger] cloned(before, snapshot) && call_ensures(f, (&snapshot,), after)
}

} // verus!
