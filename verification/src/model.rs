//! The set seen as a sequence of values, what pushes and selects do to that
//! sequence, and what follows for every run of pushes and selects.
//!
//! The values stand for the outputs that the pending tasks resolve to, slot
//! by slot. What a scan does is stated over the tasks themselves, by how
//! often each has been polled and what it answered.

use crate::task::Task;
use std::future::Future;
use vstd::multiset::Multiset;
use vstd::prelude::*;
use vstd::relations::total_ordering;
use vstd::seq_lib::lemma_sorted_unique;

verus! {

/// What is left of `items` once the item at `slot` has gone by
/// swap-removal: the last item takes the vacated slot, the others stay.
pub open spec fn swap_removed<T>(items: Seq<T>, slot: int) -> Seq<T>
    recommends
        0 <= slot < items.len(),
{
    items.update(slot, items.last()).drop_last()
}

/// A select resolved to the task at `slot`: `output` is the value at that
/// slot of `before`, and `after` is `before` with that slot swap-removed.
pub open spec fn released_at<T>(before: Seq<T>, slot: int, output: T, after: Seq<T>) -> bool {
    &&& 0 <= slot < before.len()
    &&& before[slot] == output
    &&& after == swap_removed(before, slot)
}

/// A select resolved to `output`: it was the value at some slot of `before`,
/// and `after` is `before` with that slot swap-removed.
pub open spec fn released<T>(before: Seq<T>, output: T, after: Seq<T>) -> bool {
    exists|slot: int| released_at(before, slot, output, after)
}

/// From `slot` on, `after` holds item for item what swap-removal of `slot`
/// leaves of `before`: the last item of `before` at `slot`, and behind it
/// the items of `before` in their slots.
pub open spec fn kept_behind<T>(before: Seq<T>, slot: int, after: Seq<T>) -> bool {
    &&& after.len() == before.len() - 1
    &&& forall|i: int| slot <= i < after.len() ==> after[i] == swap_removed(before, slot)[i]
}

/// One scan took the tasks from `before` to `after`: it polled the tasks one
/// by one from the first slot on and stopped at `stop`. Every task up to and
/// including `stop` was polled once. Those before `stop` answered `Pending`,
/// the one at `stop` answered `Ready`, and those behind it were not polled:
/// they are exactly as they were. A scan that found no task finished
/// stopped at the length of the set, having polled every task.
pub open spec fn scanned<F: Future>(before: Seq<Task<F>>, stop: int, after: Seq<Task<F>>) -> bool {
    &&& 0 <= stop <= before.len()
    &&& after.len() == before.len()
    &&& forall|i: int|
        0 <= i < before.len() && i <= stop ==> (#[trigger] after[i]).asked() == before[i].asked()
            + 1
    &&& forall|i: int| 0 <= i < stop ==> !(#[trigger] after[i]).finished()
    &&& stop < before.len() ==> after[stop].finished()
    &&& forall|i: int| stop < i < before.len() ==> #[trigger] after[i] == before[i]
}

/// One thing that happens to a set.
pub enum Event<T> {
    /// A task that resolves to this value was pushed.
    Pushed(T),
    /// A select resolved to this value.
    Selected(T),
}

/// `event` takes the set from `before` to `after`.
pub open spec fn step<T>(before: Seq<T>, event: Event<T>, after: Seq<T>) -> bool {
    match event {
        Event::Pushed(value) => after == before.push(value),
        Event::Selected(value) => released(before, value, after),
    }
}

/// By how many tasks `event` makes the set longer.
pub open spec fn growth<T>(event: Event<T>) -> int {
    match event {
        Event::Pushed(_) => 1,
        Event::Selected(_) => -1,
    }
}

/// A run of a set: `states[0]` is the set at the start, and `events[k]`
/// takes it from `states[k]` to `states[k + 1]`.
pub open spec fn history<T>(states: Seq<Seq<T>>, events: Seq<Event<T>>) -> bool {
    &&& states.len() == events.len() + 1
    &&& forall|k: int|
        0 <= k < events.len() ==> step(states[k], #[trigger] events[k], states[k + 1])
}

/// The values that the tasks pushed during `events` resolve to.
pub open spec fn pushed<T>(events: Seq<Event<T>>) -> Multiset<T>
    decreases events.len(),
{
    if events.len() == 0 {
        Multiset::empty()
    } else {
        let earlier = pushed(events.drop_last());
        match events.last() {
            Event::Pushed(value) => earlier.insert(value),
            Event::Selected(_) => earlier,
        }
    }
}

/// The values that the selects of `events` resolved to.
pub open spec fn selected<T>(events: Seq<Event<T>>) -> Multiset<T>
    decreases events.len(),
{
    if events.len() == 0 {
        Multiset::empty()
    } else {
        let earlier = selected(events.drop_last());
        match events.last() {
            Event::Pushed(_) => earlier,
            Event::Selected(value) => earlier.insert(value),
        }
    }
}

/// The earliest finished task wins: a task that was polled in a scan and
/// answered `Ready` is the task the scan stopped at, so every task before it
/// had answered `Pending`, and no task behind it was polled.
pub proof fn law_earliest_finished<F: Future>(
    before: Seq<Task<F>>,
    stop: int,
    after: Seq<Task<F>>,
    slot: int,
)
    requires
        scanned(before, stop, after),
        0 <= slot < before.len(),
        after[slot].asked() == before[slot].asked() + 1,
        after[slot].finished(),
    ensures
        slot == stop,
        forall|i: int| 0 <= i < slot ==> !(#[trigger] after[i]).finished(),
        forall|i: int|
            slot < i < before.len() ==> (#[trigger] after[i]).asked() == before[i].asked(),
{
    if slot > stop {
        assert(after[slot] == before[slot]);
    }
}

/// A scan that found nothing had nothing to find: it polled every task, and
/// every task answered `Pending`.
pub proof fn law_nothing_finished<F: Future>(before: Seq<Task<F>>, after: Seq<Task<F>>)
    requires
        scanned(before, before.len() as int, after),
    ensures
        forall|i: int|
            0 <= i < before.len() ==> (#[trigger] after[i]).asked() == before[i].asked() + 1
                && !after[i].finished(),
{
}

/// The answers alone decide where a scan stops, not chance, time or place:
/// two scans of the same tasks, in which every task that both polled gave
/// both the same answer, stop at the same slot.
pub proof fn law_same_answers_same_slot<F: Future>(
    before: Seq<Task<F>>,
    stop: int,
    after: Seq<Task<F>>,
    other_stop: int,
    other_after: Seq<Task<F>>,
)
    requires
        scanned(before, stop, after),
        scanned(before, other_stop, other_after),
        forall|i: int|
            0 <= i < before.len() && i <= stop && i <= other_stop ==> (#[trigger] after[i]).finished()
                == other_after[i].finished(),
    ensures
        stop == other_stop,
{
    if stop < other_stop {
        assert(after[stop].finished());
        assert(!other_after[stop].finished());
    } else if other_stop < stop {
        assert(other_after[other_stop].finished());
        assert(!after[other_stop].finished());
    }
}

/// Swap-removal takes out one item, the one at `slot`, and keeps every
/// other item as often as it was there.
pub proof fn lemma_swap_removed<T>(items: Seq<T>, slot: int)
    requires
        0 <= slot < items.len(),
    ensures
        swap_removed(items, slot).len() == items.len() - 1,
        items.to_multiset().count(items[slot]) > 0,
        swap_removed(items, slot).to_multiset() == items.to_multiset().remove(items[slot]),
{
    broadcast use vstd::seq_lib::group_to_multiset_ensures;
    broadcast use vstd::multiset::group_multiset_axioms;

    let last = items.last();
    let moved = items.update(slot, last);
    assert(moved.drop_last() == moved.remove(items.len() - 1));
    assert(swap_removed(items, slot).to_multiset() =~= items.to_multiset().remove(items[slot]));
}

/// A select hands out one of the values that were pending, and leaves the
/// others, each as often as it was there: the set is one value shorter.
pub proof fn lemma_released<T>(before: Seq<T>, output: T, after: Seq<T>)
    requires
        released(before, output, after),
    ensures
        before.len() > 0,
        after.len() == before.len() - 1,
        before.to_multiset().count(output) > 0,
        after.to_multiset() == before.to_multiset().remove(output),
        before.to_multiset() == after.to_multiset().insert(output),
{
    broadcast use vstd::multiset::group_multiset_axioms;

    let slot = choose|slot: int| released_at(before, slot, output, after);
    lemma_swap_removed(before, slot);
    assert(before.to_multiset() =~= after.to_multiset().insert(output));
}

/// Nothing is lost and nothing is made up: over any run, the values pending
/// at the start together with the values pushed are the values selected
/// together with the values still pending, each exactly as often. No output
/// is handed out more often than tasks resolve to it.
pub proof fn law_conservation<T>(states: Seq<Seq<T>>, events: Seq<Event<T>>)
    requires
        history(states, events),
    ensures
        states[0].to_multiset().add(pushed(events)) == selected(events).add(
            states.last().to_multiset(),
        ),
        selected(events).subset_of(states[0].to_multiset().add(pushed(events))),
    decreases events.len(),
{
    broadcast use vstd::seq_lib::group_to_multiset_ensures;
    broadcast use vstd::multiset::group_multiset_axioms;

    if events.len() > 0 {
        let n = events.len() - 1;
        let earlier_states = states.drop_last();
        let earlier = events.drop_last();
        assert(history(earlier_states, earlier)) by {
            assert forall|k: int| 0 <= k < earlier.len() implies step(
                earlier_states[k],
                #[trigger] earlier[k],
                earlier_states[k + 1],
            ) by {
                assert(step(states[k], events[k], states[k + 1]));
            }
        }
        law_conservation(earlier_states, earlier);
        match events[n] {
            Event::Pushed(value) => {
                assert(states[n + 1].to_multiset() == states[n].to_multiset().insert(value));
            },
            Event::Selected(value) => {
                lemma_released(states[n], value, states[n + 1]);
            },
        }
    }
    assert(states[0].to_multiset().add(pushed(events)) =~= selected(events).add(
        states.last().to_multiset(),
    ));
}

/// The size of the set follows the events one by one: each push makes it
/// one task longer, each select that resolves makes it one task shorter.
pub proof fn law_size<T>(states: Seq<Seq<T>>, events: Seq<Event<T>>)
    requires
        history(states, events),
    ensures
        states.last().len() + selected(events).len() == states[0].len() + pushed(events).len(),
        forall|k: int|
            0 <= k < events.len() ==> states[k + 1].len() == states[k].len() + growth(
                #[trigger] events[k],
            ),
{
    broadcast use vstd::seq_lib::group_to_multiset_ensures;
    broadcast use vstd::multiset::group_multiset_axioms;

    law_conservation(states, events);
    assert(states[0].to_multiset().add(pushed(events)).len() == selected(events).add(
        states.last().to_multiset(),
    ).len());
    assert forall|k: int| 0 <= k < events.len() implies states[k + 1].len() == states[k].len()
        + growth(#[trigger] events[k]) by {
        assert(step(states[k], events[k], states[k + 1]));
        if let Event::Selected(value) = events[k] {
            lemma_released(states[k], value, states[k + 1]);
        }
    }
}

/// A run that ends with the empty set has had as many selects resolve as
/// there were tasks at the start and tasks pushed together, and every value
/// that was pushed has been handed out by a select.
pub proof fn law_emptied<T>(states: Seq<Seq<T>>, events: Seq<Event<T>>)
    requires
        history(states, events),
        states.last().len() == 0,
    ensures
        selected(events).len() == states[0].len() + pushed(events).len(),
        selected(events) == states[0].to_multiset().add(pushed(events)),
        pushed(events).subset_of(selected(events)),
{
    broadcast use vstd::seq_lib::group_to_multiset_ensures;
    broadcast use vstd::multiset::group_multiset_axioms;

    law_conservation(states, events);
    law_size(states, events);
    assert(states.last().to_multiset() =~= Multiset::empty());
    assert(selected(events) =~= states[0].to_multiset().add(pushed(events)));
}

/// After `count` selects in a row have resolved, the set is `count` tasks
/// shorter, and the outputs handed out so far together with the values
/// still pending are the values that were pending at the start.
proof fn lemma_selects<T>(states: Seq<Seq<T>>, outputs: Seq<T>, count: int)
    requires
        states.len() == outputs.len() + 1,
        forall|k: int|
            0 <= k < outputs.len() ==> released(states[k], #[trigger] outputs[k], states[k + 1]),
        0 <= count <= outputs.len(),
    ensures
        states[count].len() == states[0].len() - count,
        states[0].to_multiset() == outputs.take(count).to_multiset().add(
            states[count].to_multiset(),
        ),
    decreases count,
{
    broadcast use vstd::seq_lib::group_to_multiset_ensures;
    broadcast use vstd::multiset::group_multiset_axioms;

    if count == 0 {
        assert(outputs.take(0) =~= Seq::<T>::empty());
    } else {
        let k = count - 1;
        lemma_selects(states, outputs, k);
        lemma_released(states[k], outputs[k], states[k + 1]);
        assert(outputs.take(count) =~= outputs.take(k).push(outputs[k]));
    }
    assert(states[0].to_multiset() =~= outputs.take(count).to_multiset().add(
        states[count].to_multiset(),
    ));
}

/// Draining a set: when a set of N tasks has had N selects resolve, with no
/// push in between, it is empty, and the N outputs are the values that the N
/// tasks resolve to, each exactly as often, in whatever order they came.
pub proof fn law_drain<T>(states: Seq<Seq<T>>, outputs: Seq<T>)
    requires
        states.len() == outputs.len() + 1,
        forall|k: int|
            0 <= k < outputs.len() ==> released(states[k], #[trigger] outputs[k], states[k + 1]),
        outputs.len() == states[0].len(),
    ensures
        states.last().len() == 0,
        outputs.to_multiset() == states[0].to_multiset(),
{
    broadcast use vstd::seq_lib::group_to_multiset_ensures;
    broadcast use vstd::multiset::group_multiset_axioms;

    lemma_selects(states, outputs, outputs.len() as int);
    assert(outputs.take(outputs.len() as int) =~= outputs);
    assert(states.last().to_multiset() =~= Multiset::empty());
}

/// Draining a set, in sorted form: the outputs of the N selects, sorted by
/// any total order, are the values of the N tasks sorted by that order.
pub proof fn law_drain_sorted<T>(
    states: Seq<Seq<T>>,
    outputs: Seq<T>,
    leq: spec_fn(T, T) -> bool,
)
    requires
        states.len() == outputs.len() + 1,
        forall|k: int|
            0 <= k < outputs.len() ==> released(states[k], #[trigger] outputs[k], states[k + 1]),
        outputs.len() == states[0].len(),
        total_ordering(leq),
    ensures
        outputs.sort_by(leq) == states[0].sort_by(leq),
{
    law_drain(states, outputs);
    outputs.lemma_sort_by_ensures(leq);
    states[0].lemma_sort_by_ensures(leq);
    lemma_sorted_unique(outputs.sort_by(leq), states[0].sort_by(leq), leq);
}

} // verus!
