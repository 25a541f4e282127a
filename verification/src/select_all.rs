//! The set of pending tasks.

use crate::model::scanned;
use crate::model::swap_removed;
use crate::select_future::SelectFuture;
use crate::task::poll_task;
use crate::task::Task;
use std::future::Future;
use std::task::Context;
use std::task::Poll;
use vstd::future::FutureAdditionalSpecFns;
use vstd::prelude::*;

verus! {

/// An unbounded set of futures that all resolve to one type of output.
///
/// Its view is the sequence of its pending tasks, in the order in which a
/// select asks them. A task is in the set from the moment it is pushed until
/// a select finds it finished and hands out its output.
#[verifier::reject_recursive_types(F)]
pub struct SelectAll<F: Future> {
    futures: Vec<Task<F>>,
}

impl<F: Future> View for SelectAll<F> {
    type V = Seq<Task<F>>;

    closed spec fn view(&self) -> Seq<Task<F>> {
        self.futures@
    }
}

impl<F: Future> SelectAll<F> {
    /// Constructs a new, empty `SelectAll`.
    pub fn new() -> (set: Self)
        ensures
            set@ == Seq::<Task<F>>::empty(),
    {
        SelectAll { futures: Vec::new() }
    }

    /// Constructs a `SelectAll` that holds all of `futures`, in their order.
    /// None of them is polled.
    pub fn from(futures: Vec<F>) -> (set: Self)
        ensures
            set@.len() == futures@.len(),
            set@.map_values(|task: Task<F>| task.future()@) == futures@.map_values(
                |future: F| future@,
            ),
            forall|i: int|
                0 <= i < set@.len() ==> (#[trigger] set@[i]).asked() == 0 && !set@[i].finished(),
    {
        let mut tasks: Vec<Task<F>> = Vec::new();
        for future in it: futures
            invariant
                tasks@.len() == it.index(),
                forall|i: int|
                    0 <= i < tasks@.len() ==> (#[trigger] tasks@[i]).future()@ == it.seq()[i]@,
                forall|i: int|
                    0 <= i < tasks@.len() ==> (#[trigger] tasks@[i]).asked() == 0
                        && !tasks@[i].finished(),
        {
            tasks.push(Task::new(future));
        }
        let set = SelectAll { futures: tasks };
        assert(set@.map_values(|task: Task<F>| task.future()@) =~= futures@.map_values(
            |future: F| future@,
        ));
        set
    }

    /// Returns the number of futures contained in the set: the tasks that
    /// are still pending.
    pub fn len(&self) -> (count: usize)
        ensures
            count == self@.len(),
    {
        self.futures.len()
    }

    /// Returns true if the set contains no futures.
    pub fn is_empty(&self) -> (empty: bool)
        ensures
            empty == (self@.len() == 0),
    {
        self.futures.is_empty()
    }

    /// Pushes a future into the set, behind the tasks that are there, and
    /// leaves those as they are. The future is not polled: it makes progress
    /// only when a later select asks it.
    pub fn push(&mut self, future: F)
        ensures
            final(self)@.len() == old(self)@.len() + 1,
            final(self)@.drop_last() == old(self)@,
            final(self)@.last().future()@ == future@,
            final(self)@.last().asked() == 0,
            !final(self)@.last().finished(),
            final(self)@.map_values(|task: Task<F>| task.future()@) == old(self)@.map_values(
                |task: Task<F>| task.future()@,
            ).push(future@),
    {
        let task = Task::new(future);
        self.futures.push(task);
        assert(self@.drop_last() =~= old(self)@);
        assert(self@.map_values(|task: Task<F>| task.future()@) =~= old(self)@.map_values(
            |task: Task<F>| task.future()@,
        ).push(future@));
    }

    /// Asks the pending tasks one by one, from the first slot on, whether
    /// they have finished, and stops at the first that has: `Some` with its
    /// slot and its output, or `None` when every task was asked and none had
    /// finished. No task enters or leaves the set.
    ///
    /// Each task is polled with `cx`, so each arranges for the waker of `cx`
    /// to be woken when it can make progress.
    ///
    /// Every task up to the one that was found has been polled once. Those
    /// before it answered `Pending`, and each still resolves to the value it
    /// resolved to. The tasks behind it have not been polled: they are
    /// exactly as they were.
    pub(crate) fn scan(&mut self, cx: &mut Context<'_>) -> (found: Option<(usize, F::Output)>)
        ensures
            match found {
                Some((slot, output)) => {
                    &&& slot < old(self)@.len()
                    &&& scanned(old(self)@, slot as int, final(self)@)
                    &&& output == old(self)@[slot as int].future()@
                    &&& forall|i: int|
                        0 <= i < slot ==> (#[trigger] final(self)@[i]).future()@ == old(
                            self,
                        )@[i].future()@
                },
                None => {
                    &&& scanned(old(self)@, old(self)@.len() as int, final(self)@)
                    &&& forall|i: int|
                        0 <= i < old(self)@.len() ==> (#[trigger] final(self)@[i]).future()@
                            == old(self)@[i].future()@
                },
            },
    {
        let mut slot: usize = 0;
        while slot < self.futures.len()
            invariant
                slot <= self@.len(),
                self@.len() == old(self)@.len(),
                forall|i: int|
                    0 <= i < slot ==> {
                        &&& (#[trigger] self@[i]).asked() == old(self)@[i].asked() + 1
                        &&& !self@[i].finished()
                        &&& self@[i].future()@ == old(self)@[i].future()@
                    },
                forall|i: int| slot <= i < old(self)@.len() ==> #[trigger] self@[i] == old(self)@[i],
            decreases self@.len() - slot,
        {
            match poll_task(&mut self.futures[slot], cx) {
                Poll::Ready(output) => {
                    return Some((slot, output));
                },
                Poll::Pending => {
                    slot += 1;
                },
            }
        }
        None
    }

    /// Takes the task that a scan found finished out of the set, by
    /// swap-removal, and hands out its output as `Ready`; with `None` the
    /// set stays as it is and the answer is `Pending`.
    ///
    /// The task in the slot that `found` names is dropped whatever state it
    /// is in, so this is for what [`SelectAll::scan`] returned and for
    /// nothing else.
    pub(crate) fn release(&mut self, found: Option<(usize, F::Output)>) -> (answer: Poll<
        F::Output,
    >)
        requires
            found matches Some((slot, _)) ==> slot < old(self)@.len(),
        ensures
            match found {
                Some((slot, output)) => {
                    &&& answer == Poll::Ready(output)
                    &&& final(self)@ == swap_removed(old(self)@, slot as int)
                },
                None => answer is Pending && final(self)@ == old(self)@,
            },
    {
        match found {
            Some((slot, output)) => {
                let _ = self.futures.swap_remove(slot);
                Poll::Ready(output)
            },
            None => Poll::Pending,
        }
    }

    /// Selects over the futures of the set: the future returned resolves to
    /// the output of the first task that a poll of it finds finished, and
    /// takes that task out of the set.
    ///
    /// The set must hold at least one future.
    pub fn select(&mut self) -> (select: SelectFuture<'_, F>)
        requires
            old(self)@.len() > 0,
        ensures
            select.pending() == old(self)@,
            *final(select.set) == *final(self),
    {
        SelectFuture::new(self)
    }
}

} // verus!
