//! Laws of the cell's linearized histories.
//!
//! Every concurrent schedule of resets, swaps and reads on one cell is
//! equivalent to some sequential order of the same steps, and each mutating
//! step appends exactly one value to the cell's history. The lemmas here
//! therefore quantify over histories — arbitrary serialization orders — and
//! so hold of every schedule.

use vstd::prelude::*;

use crate::Atom;
use crate::swaps_to;

verus! {

/// A type's clone is exact when every copy it hands out is equal, as a value,
/// to the original. All plain value types (integers, and containers of them)
/// clone this way; the laws below that compare copies assume it.
pub open spec fn clone_is_exact<T: Clone>() -> bool {
    forall|original: T, copy: T| #[trigger] cloned(original, copy) ==> copy == original
}

/// Strict total order of states: every mutating step appends exactly one
/// value, so the history the cell had before any step is a prefix of the
/// history it has after — states of one cell never diverge, they only extend
/// one another, even when the values themselves are not comparable.
pub proof fn lemma_states_totally_ordered<T>(past: Seq<T>, installed: T)
    ensures
        past.is_prefix_of(past.push(installed)),
{
    assert(past =~= past.push(installed).subrange(0, past.len() as int));
}

/// Last write wins: whatever the cell held before, after an unconditional
/// write of `written` it reads exactly `written` — never a merge of the new
/// value with a superseded one. Two cells that receive the same final write
/// agree from then on, however their earlier histories differ.
pub proof fn lemma_last_write_wins<T>(some_past: Seq<T>, other_past: Seq<T>, written: T)
    ensures
        some_past.push(written).last() == written,
        some_past.push(written).last() == other_past.push(written).last(),
{
}

/// Idempotence of read: reading takes no step, so any two reads with no
/// intervening reset or swap return copies of one and the same current value;
/// for a type whose clone is exact, the two results are equal.
pub proof fn lemma_read_idempotent<T: Clone>(cell: &Atom<T>, first: T, second: T)
    requires
        clone_is_exact::<T>(),
        cloned(cell.current(), first),
        cloned(cell.current(), second),
    ensures
        first == second,
{
}

/// For a type whose clone is exact, a swap step from `before` to `after` is
/// exactly one application of `f` to `before`: what `swap` installs is what
/// `f` returned on the value the cell held.
pub proof fn lemma_swap_is_application<T: Clone, F: Fn(&T) -> T>(f: F, before: T, after: T)
    requires
        clone_is_exact::<T>(),
        swaps_to(f, before, after),
    ensures
        call_ensures(f, (&before,), after),
{
    let snapshot = choose|snapshot: T|
        #[trigger] cloned(before, snapshot) && call_ensures(f, (&snapshot,), after);
    assert(snapshot == before);
}

/// No lost updates, counter form: a history that starts at 0 and in which
/// every installed value is one more than its predecessor is exactly
/// `0, 1, ..., n`. So after `n` increment swaps, in whatever order they
/// serialize, the cell reads `n`, and the `n` installed (and returned) values
/// are `1, ..., n`, each exactly once.
pub proof fn lemma_counter_history(history: Seq<int>)
    requires
        history.len() > 0,
        history[0] == 0,
        forall|i: int| 0 < i < history.len() ==> #[trigger] history[i] == history[i - 1] + 1,
    ensures
        history == Seq::new(history.len(), |i: int| i),
        history.last() == history.len() - 1,
    decreases history.len(),
{
    let model = Seq::new(history.len(), |i: int| i);
    if history.len() == 1 {
        assert(history =~= model);
    } else {
        let shorter = history.drop_last();
        assert forall|i: int| 0 < i < shorter.len() implies #[trigger] shorter[i] == shorter[i
            - 1] + 1 by {
            assert(history[i] == history[i - 1] + 1);
        }
        lemma_counter_history(shorter);
        let shorter_model = Seq::new(shorter.len(), |i: int| i);
        assert forall|i: int| 0 <= i < history.len() implies history[i] == model[i] by {
            if i < history.len() - 1 {
                assert(history[i] == shorter[i]);
                assert(shorter[i] == shorter_model[i]);
            } else {
                assert(history[i] == history[i - 1] + 1);
                assert(history[i - 1] == shorter[i - 1]);
                assert(shorter[i - 1] == shorter_model[i - 1]);
            }
        }
        assert(history =~= model);
    }
}

/// The map reached from `start` after inserting `value` at each key of
/// `keys`, in order.
pub open spec fn insert_all<K, V>(start: Map<K, V>, keys: Seq<K>, value: V) -> Map<K, V>
    decreases keys.len(),
{
    if keys.len() == 0 {
        start
    } else {
        insert_all(start, keys.drop_last(), value).insert(keys.last(), value)
    }
}

/// No lost updates, collection form: when each of several callers inserts its
/// own key into the cell's map, then in whatever order the steps serialize,
/// the final map holds exactly the starting keys together with every inserted
/// key — none missing, none extraneous — each inserted key mapped to the
/// inserted value and every other key keeping its starting value.
pub proof fn lemma_no_lost_inserts<K, V>(start: Map<K, V>, keys: Seq<K>, value: V)
    ensures
        insert_all(start, keys, value).dom() == start.dom().union(keys.to_set()),
        forall|k: K|
            keys.contains(k) ==> insert_all(start, keys, value)[k] == value,
        forall|k: K|
            start.dom().contains(k) && !keys.contains(k)
                ==> insert_all(start, keys, value)[k] == start[k],
    decreases keys.len(),
{
    if keys.len() == 0 {
        assert(keys.to_set() =~= Set::<K>::empty());
        assert(insert_all(start, keys, value).dom() =~= start.dom().union(keys.to_set()));
    } else {
        let shorter = keys.drop_last();
        lemma_no_lost_inserts(start, shorter, value);
        assert(forall|k: K| keys.contains(k) <==> shorter.contains(k) || k == keys.last()) by {
            assert(forall|k: K| #[trigger] shorter.contains(k) ==> keys.contains(k));
            assert(keys[keys.len() - 1] == keys.last());
            assert(forall|i: int|
                0 <= i < keys.len() && keys[i] != keys.last() ==> shorter[i] == keys[i]);
        }
        assert(keys.to_set() =~= shorter.to_set().insert(keys.last()));
        assert(insert_all(start, keys, value).dom() =~= start.dom().union(keys.to_set()));
    }
}

} // verus!
