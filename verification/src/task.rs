//! The polling contract that the join combinator drives: a unit of work that
//! is stepped repeatedly until it reports its final value exactly once.

use vstd::prelude::*;

verus! {

/// The error reported when a completed task or combinator is polled again.
#[derive(Clone, Copy, Debug, PartialEq, Eq, Structural)]
pub enum Violation {
    PolledAfterCompletion,
}

/// A unit of work that can be polled until it completes.
///
/// A poll either returns the final value (`Some`) or reports that the work is
/// not yet done (`None`). Once a task has reported completion it must never be
/// polled again; that protocol violation is ruled out here by the
/// precondition, so no conforming caller can commit it.
///
/// `Cx` is the shared context a task is polled against (for the echo test
/// double it is the request registry); the combinator only threads it through.
pub trait Task: Sized {
    type Output;

    type Cx;

    /// What the task assumes and preserves of the context it is polled
    /// against.
    spec fn cx_wf(cx: &Self::Cx) -> bool;

    /// The transition one poll step makes: how the polled task and the
    /// context it was polled against evolve together. The combinator's poll
    /// passes the context through every pending task's step in slot order,
    /// and promises the resulting chain, so what a poll does to the context
    /// is not lost behind this trait.
    spec fn step(pre: Self, pre_cx: Self::Cx, post: Self, post_cx: Self::Cx) -> bool;

    /// True once the final value has been handed out.
    spec fn done(&self) -> bool;

    /// The count of poll calls made on it.
    spec fn polls(&self) -> nat;

    /// The value delivered at completion, meaningful once `done()`.
    spec fn output(&self) -> Self::Output;

    /// Step the task once: every poll advances the task's own poll count by
    /// exactly one, and the task reports completion if and only if it hands
    /// back its final value.
    fn poll(&mut self, cx: &mut Self::Cx) -> (r: Option<Self::Output>)
        requires
            !old(self).done(),
            Self::cx_wf(old(cx)),
        ensures
            Self::cx_wf(final(cx)),
            Self::step(*old(self), *old(cx), *final(self), *final(cx)),
            final(self).polls() == old(self).polls() + 1,
            (r is Some) <==> final(self).done(),
            (r matches Some(v) ==> v == final(self).output()),
    ;
}

} // verus!
