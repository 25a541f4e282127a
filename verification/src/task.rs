//! Tasks: pinned futures that keep a record of how they have been asked.
//!
//! What is trusted here rests on one reading of `future@`, the value that a
//! future resolves to: it is the output that the future hands out the one
//! time it answers `Ready`, however often it answers `Pending` before.

use std::future::Future;
use std::pin::Pin;
use std::task::Context;
use std::task::Poll;
use vstd::future::FutureAdditionalSpecFns;
use vstd::prelude::*;

verus! {

/// `std::pin::Pin`, carried through as it is.
#[verifier::external_type_specification]
#[verifier::external_body]
#[verifier::reject_recursive_types(P)]
pub struct ExPin<P>(Pin<P>);

/// `std::task::Context`, carried through as it is.
#[verifier::external_type_specification]
#[verifier::external_body]
pub struct ExContext<'a>(Context<'a>);

/// `std::task::Poll`, with its two variants `Ready` and `Pending`.
#[verifier::external_type_specification]
#[verifier::reject_recursive_types(T)]
pub struct ExPoll<T>(Poll<T>);

/// A future in a slot of its own on the heap, where it stays until it is
/// dropped: the set may move the task, never the future behind it.
///
/// With the future a task keeps, for contracts only, how often it has been
/// polled and what it answered last. A task starts with both marks clear.
/// Nothing outside this module can write them, and here only [`poll_task`]
/// changes them.
#[verifier::reject_recursive_types(F)]
pub struct Task<F: Future> {
    future: Pin<Box<F>>,
    asked: Ghost<nat>,
    finished: Ghost<bool>,
}

impl<F: Future> Task<F> {
    /// The pinned future; `task.future()@` is the value the task resolves to.
    pub closed spec fn future(&self) -> Pin<Box<F>> {
        self.future
    }

    /// How often the task has been polled.
    pub closed spec fn asked(&self) -> nat {
        self.asked@
    }

    /// Whether the task answered `Ready` when it was last polled; `false`
    /// for a task that has not been polled.
    pub closed spec fn finished(&self) -> bool {
        self.finished@
    }

    /// Makes a task of `future`, which is not polled.
    pub(crate) fn new(future: F) -> (task: Self)
        ensures
            task.future()@ == future@,
            task.asked() == 0,
            !task.finished(),
    {
        Task { future: pin_future(future), asked: Ghost(0), finished: Ghost(false) }
    }
}

/// Moves `future` to the heap and pins it there, with `Box::pin`.
///
/// Trusted: a pinned box polls the future it holds, so it resolves to the
/// value that `future` resolves to.
#[verifier::external_body]
fn pin_future<F: Future>(future: F) -> (pinned: Pin<Box<F>>)
    ensures
        pinned@ == future@,
{
    Box::pin(future)
}

/// Polls `task` once with `Future::poll`, reached through `Pin::as_mut`,
/// and hands it `cx` so that it can arrange its own wake-up.
///
/// Trusted: the call is one more poll of the task, and the task's mark of
/// its last answer is what this call answered. An output that comes out
/// `Ready` is the value the task resolves to, and a task that answers
/// `Pending` still resolves to the same value.
/// Nothing is said of when a task finishes. The task's code runs inside
/// this call, and a panic in that code is not caught here.
#[verifier::external_body]
pub(crate) fn poll_task<F: Future>(task: &mut Task<F>, cx: &mut Context<'_>) -> (answer: Poll<
    F::Output,
>)
    ensures
        final(task).asked() == old(task).asked() + 1,
        final(task).finished() == (answer is Ready),
        answer matches Poll::Ready(value) ==> value == old(task).future()@,
        answer is Pending ==> final(task).future()@ == old(task).future()@,
{
    task.future.as_mut().poll(cx)
}

} // verus!
