//! One select in progress.

use crate::model::kept_behind;
use crate::model::released;
use crate::model::released_at;
use crate::model::scanned;
use crate::model::swap_removed;
use crate::select_all::SelectAll;
use crate::task::Task;
use std::future::Future;
use std::pin::Pin;
use std::task::Context;
use std::task::Poll;
use vstd::future::FutureAdditionalSpecFns;
use vstd::prelude::*;

verus! {

/// A select in progress: it borrows the set until it is dropped, and has no
/// other state. Dropped before it has resolved, it leaves every task in the
/// set.
#[verifier::reject_recursive_types(F)]
pub struct SelectFuture<'a, F: Future> {
    /// The set that is selected over.
    pub set: &'a mut SelectAll<F>,
}

/// Gives the select behind a pinned reference, with `Pin::get_mut`: a
/// `SelectFuture` holds only a reference, so it may be moved freely.
///
/// Trusted, and nothing is claimed of the reference that comes back.
#[verifier::external_body]
fn unpinned<'a, 'b, F: Future>(select: Pin<&'a mut SelectFuture<'b, F>>) -> (target: &'a mut
    SelectFuture<'b, F>) {
    select.get_mut()
}

impl<'a, F: Future> SelectFuture<'a, F> {
    /// The tasks that are pending in the borrowed set.
    pub open spec fn pending(&self) -> Seq<Task<F>> {
        (*self.set)@
    }

    /// Starts a select over `set`, which must hold at least one future.
    pub fn new(set: &'a mut SelectAll<F>) -> (select: Self)
        requires
            old(set)@.len() > 0,
        ensures
            select.pending() == old(set)@,
            *final(select.set) == *final(set),
    {
        SelectFuture { set }
    }

    /// Makes one attempt to resolve: polls the tasks of the set one by one,
    /// from the first slot on, and stops at the first that has finished.
    /// That task leaves the set by swap-removal and its output is returned
    /// as `Ready`. If no task has finished, the answer is `Pending`: the set
    /// then holds the same tasks in the same slots, and each has been polled
    /// once and handed `cx`.
    ///
    /// The task that leaves is the first in slot order that answers `Ready`
    /// in this attempt: every task before it was polled once and answered
    /// `Pending`, and the tasks behind it were not polled. Nothing is kept
    /// between two calls, so each call starts at the first slot again.
    ///
    /// The set must hold at least one future.
    pub fn poll(&mut self, cx: &mut Context<'_>) -> (answer: Poll<F::Output>)
        requires
            old(self).pending().len() > 0,
        ensures
            *final(final(self).set) == *final(old(self).set),
            match answer {
                Poll::Ready(output) => {
                    &&& released(
                        old(self).pending().map_values(|task: Task<F>| task.future()@),
                        output,
                        final(self).pending().map_values(|task: Task<F>| task.future()@),
                    )
                    &&& exists|slot: int, polled: Seq<Task<F>>|
                        {
                            &&& slot < old(self).pending().len()
                            &&& #[trigger] scanned(old(self).pending(), slot, polled)
                            &&& final(self).pending() == swap_removed(polled, slot)
                            &&& output == old(self).pending()[slot].future()@
                            &&& forall|i: int|
                                0 <= i < slot ==> (#[trigger] polled[i]).future()@ == old(
                                    self,
                                ).pending()[i].future()@
                            &&& released_at(
                                old(self).pending().map_values(|task: Task<F>| task.future()@),
                                slot,
                                output,
                                final(self).pending().map_values(|task: Task<F>| task.future()@),
                            )
                            &&& kept_behind(old(self).pending(), slot, final(self).pending())
                        }
                },
                Poll::Pending => {
                    &&& scanned(
                        old(self).pending(),
                        old(self).pending().len() as int,
                        final(self).pending(),
                    )
                    &&& final(self).pending().map_values(|task: Task<F>| task.future()@) == old(
                        self,
                    ).pending().map_values(|task: Task<F>| task.future()@)
                },
            },
    {
        let found = self.set.scan(cx);
        let ghost polled = self.pending();
        let ghost seen = found;
        let answer = self.set.release(found);
        proof {
            let before = old(self).pending().map_values(|task: Task<F>| task.future()@);
            let after = self.pending().map_values(|task: Task<F>| task.future()@);
            match seen {
                Some((slot, output)) => {
                    assert(self.pending() == swap_removed(polled, slot as int));
                    assert(after =~= swap_removed(before, slot as int));
                    assert(released_at(before, slot as int, output, after));
                    assert(kept_behind(old(self).pending(), slot as int, self.pending()));
                    assert(scanned(old(self).pending(), slot as int, polled));
                },
                None => {
                    assert(after =~= before);
                },
            }
        }
        answer
    }
}

impl<'a, F: Future> Future for SelectFuture<'a, F> {
    type Output = F::Output;

    /// Makes one attempt to resolve, as [`SelectFuture::poll`] does. Over a
    /// set that holds no future there is nothing to attempt, and the answer
    /// is `Pending`.
    fn poll(self: Pin<&mut Self>, cx: &mut Context<'_>) -> Poll<F::Output> {
        let select = unpinned(self);
        if select.set.is_empty() {
            Poll::Pending
        } else {
            SelectFuture::poll(select, cx)
        }
    }
}

} // verus!
