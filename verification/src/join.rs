//! The join combinator: drives a fixed, ordered collection of tasks to
//! completion and yields their results, ordered by slot index, exactly once.

use vstd::prelude::*;
use crate::task::{Task, Violation};

verus! {

/// One slot of the combinator: the task it drives, and whether that task has
/// completed. A slot goes from not-done to done at most once and never back.
struct JoinSlot<T: Task> {
    task: T,
    done: bool,
}

/// Drives its tasks jointly: every outer poll steps every still-pending task
/// exactly once, in slot-index order, and the combinator reports completion
/// exactly when every task has completed, yielding the results in slot-index
/// order regardless of the order in which the tasks actually completed.
pub struct JoinCombinator<T: Task> {
    slots: Vec<JoinSlot<T>>,
    results: Vec<Option<T::Output>>,
    finished: bool,
}

impl<T: Task> JoinCombinator<T> {
    /// Number of joined tasks; fixed for the life of the combinator.
    pub closed spec fn n(&self) -> nat {
        self.slots@.len()
    }

    /// The task held at slot `i`.
    pub closed spec fn task_at(&self, i: int) -> T {
        self.slots@[i].task
    }

    /// Whether the task at slot `i` has completed.
    pub closed spec fn is_done(&self, i: int) -> bool {
        self.slots@[i].done
    }

    /// Whether the combinator itself has reported completion.
    pub closed spec fn completed(&self) -> bool {
        self.finished
    }

    /// Internal consistency: the retained result of each completed slot is
    /// its task's output, held until the single extraction at completion.
    pub closed spec fn wf(&self) -> bool {
        &&& self.results@.len() == self.slots@.len()
        &&& (forall|i: int|
            0 <= i < self.slots@.len() ==> (#[trigger] self.slots@[i].done
                <==> self.slots@[i].task.done()))
        &&& (forall|i: int|
            0 <= i < self.slots@.len() ==> ((#[trigger] self.results@[i] is Some)
                <==> (self.slots@[i].done && !self.finished)))
        &&& (forall|i: int|
            0 <= i < self.slots@.len() ==> (#[trigger] self.results@[i] matches Some(v)
                ==> v == self.slots@[i].task.output()))
        &&& (self.finished ==> forall|i: int|
            0 <= i < self.slots@.len() ==> #[trigger] self.slots@[i].done)
    }

    /// One outer poll seen as a chain of contexts: `mids[i]` is the context
    /// before slot `i` is reached, `mids[0]` the context the poll started
    /// from and `mids[n]` the one it left behind. A slot already done is
    /// skipped (its context is passed through untouched); a pending slot's
    /// task makes one `Task::step` transition from `mids[i]` to
    /// `mids[i + 1]`.
    pub open spec fn stepped_via(
        pre: JoinCombinator<T>,
        post: JoinCombinator<T>,
        cx0: T::Cx,
        cx1: T::Cx,
        mids: Seq<T::Cx>,
    ) -> bool {
        &&& mids.len() == pre.n() + 1
        &&& mids[0] == cx0
        &&& mids[pre.n() as int] == cx1
        &&& (forall|i: int|
            0 <= i < pre.n() ==> (if pre.is_done(i) {
                mids[i + 1] == mids[i]
            } else {
                T::step(pre.task_at(i), #[trigger] mids[i], post.task_at(i), mids[i + 1])
            }))
    }

    /// Build a combinator over the given tasks, in order: slot `i` drives
    /// `tasks[i]`. The tasks must not yet have completed.
    pub fn join(tasks: Vec<T>) -> (c: JoinCombinator<T>)
        requires
            forall|i: int| 0 <= i < tasks@.len() ==> !(#[trigger] tasks@[i]).done(),
        ensures
            c.wf(),
            !c.completed(),
            c.n() == tasks@.len(),
            forall|i: int| 0 <= i < tasks@.len() ==> #[trigger] c.task_at(i) == tasks@[i],
            forall|i: int| 0 <= i < tasks@.len() ==> !(#[trigger] c.is_done(i)),
    {
        let mut tasks = tasks;
        let mut slots: Vec<JoinSlot<T>> = Vec::new();
        let mut results: Vec<Option<T::Output>> = Vec::new();
        let ghost all = tasks@;
        let total = tasks.len();
        proof {
            assert(all.len() == total);
        }
        let mut k: usize = 0;
        while tasks.len() > 0
            invariant
                tasks@ =~= all.skip(k as int),
                forall|i: int| 0 <= i < all.len() ==> !(#[trigger] all[i]).done(),
                all.len() <= usize::MAX,
                k <= all.len(),
                slots@.len() == k,
                results@.len() == k,
                forall|i: int| 0 <= i < k ==> #[trigger] slots@[i].task == all[i],
                forall|i: int| 0 <= i < k ==> !(#[trigger] slots@[i].done),
                forall|i: int| 0 <= i < k ==> (#[trigger] results@[i]) is None,
            decreases tasks@.len(),
        {
            let t = tasks.remove(0);
            proof {
                assert(t == all[k as int]);
                assert(tasks@ =~= all.skip(k as int + 1));
            }
            slots.push(JoinSlot { task: t, done: false });
            results.push(None);
            k = k + 1;
        }
        proof {
            assert(k == all.len());
        }
        JoinCombinator { slots, results, finished: false }
    }

    /// One outer poll. Steps every still-pending task exactly once, in slot
    /// index order; completed tasks are left untouched. Reports `Some` exactly
    /// when every task has completed, carrying the results in slot order.
    pub fn poll(&mut self, cx: &mut T::Cx) -> (r: Option<Vec<T::Output>>)
        requires
            old(self).wf(),
            !old(self).completed(),
            T::cx_wf(old(cx)),
        ensures
            final(self).wf(),
            T::cx_wf(final(cx)),
            final(self).n() == old(self).n(),
            // a completed slot is left untouched and never regresses
            forall|i: int|
                0 <= i < old(self).n() && old(self).is_done(i)
                    ==> #[trigger] final(self).task_at(i) == old(self).task_at(i)
                        && final(self).is_done(i),
            // every still-pending task is advanced by exactly one poll step
            forall|i: int|
                0 <= i < old(self).n() && !old(self).is_done(i)
                    ==> (#[trigger] final(self).task_at(i)).polls()
                        == old(self).task_at(i).polls() + 1,
            // a slot becomes done exactly when its task reported completion
            forall|i: int|
                0 <= i < old(self).n()
                    ==> (#[trigger] final(self).is_done(i) <==> final(self).task_at(i).done()),
            // completion is reported if and only if every task has completed
            (r is Some) <==> (forall|i: int|
                0 <= i < final(self).n() ==> #[trigger] final(self).is_done(i)),
            (r is Some) <==> final(self).completed(),
            // the results come out in slot order, whatever order tasks finished in
            (r matches Some(vs) ==> vs@.len() == old(self).n()
                && (forall|i: int|
                    0 <= i < vs@.len()
                        ==> #[trigger] vs@[i] == final(self).task_at(i).output())),
            // the context was passed through the pending tasks' steps, in
            // slot order
            exists|mids: Seq<T::Cx>|
                Self::stepped_via(*old(self), *final(self), *old(cx), *final(cx), mids),
    {
        let n = self.slots.len();
        let ghost pre = *self;
        let ghost cx0 = *cx;
        let ghost mut mids: Seq<T::Cx> = seq![*cx];
        let mut k: usize = 0;
        while k < n
            invariant
                self.slots@.len() == n,
                self.results@.len() == n,
                pre.slots@.len() == n,
                pre.results@.len() == n,
                self.finished == false,
                pre.finished == false,
                T::cx_wf(cx),
                k <= n,
                mids.len() == k + 1,
                mids[0] == cx0,
                mids[k as int] == *cx,
                forall|i: int|
                    0 <= i < k ==> (if pre.slots@[i].done {
                        mids[i + 1] == mids[i]
                    } else {
                        T::step(pre.slots@[i].task, #[trigger] mids[i], self.slots@[i].task,
                        mids[i + 1])
                    }),
                forall|i: int| 0 <= i < n ==> ((#[trigger] pre.results@[i] is Some)
                    <==> pre.slots@[i].done),
                forall|i: int| 0 <= i < n ==> (#[trigger] pre.results@[i] matches Some(v)
                    ==> v == pre.slots@[i].task.output()),
                forall|i: int| 0 <= i < n ==> (#[trigger] pre.slots@[i].done
                    <==> pre.slots@[i].task.done()),
                // slots not yet reached are unchanged
                forall|i: int| k <= i < n ==> #[trigger] self.slots@[i] == pre.slots@[i],
                forall|i: int| k <= i < n ==> #[trigger] self.results@[i] == pre.results@[i],
                // slots already reached: done ones untouched, pending ones stepped once
                forall|i: int|
                    0 <= i < k && pre.slots@[i].done
                        ==> #[trigger] self.slots@[i] == pre.slots@[i],
                forall|i: int|
                    0 <= i < k && !pre.slots@[i].done
                        ==> (#[trigger] self.slots@[i].task).polls()
                            == pre.slots@[i].task.polls() + 1,
                forall|i: int|
                    0 <= i < k
                        ==> ((#[trigger] self.slots@[i].done) <==> self.slots@[i].task.done()),
                forall|i: int|
                    0 <= i < k
                        ==> ((#[trigger] self.results@[i] is Some) <==> self.slots@[i].done),
                forall|i: int|
                    0 <= i < k
                        ==> (#[trigger] self.results@[i] matches Some(v)
                            ==> v == self.slots@[i].task.output()),
            decreases n - k,
        {
            let slot = &mut self.slots[k];
            if !slot.done {
                let stepped = slot.task.poll(cx);
                match stepped {
                    Some(v) => {
                        slot.done = true;
                        self.results[k] = Some(v);
                    },
                    None => {},
                }
            }
            proof {
                mids = mids.push(*cx);
            }
            k = k + 1;
        }
        let ghost chain = mids;
        let mut all_done = true;
        let mut k: usize = 0;
        while k < n
            invariant
                self.slots@.len() == n,
                k <= n,
                all_done == (forall|i: int| 0 <= i < k ==> #[trigger] self.slots@[i].done),
            decreases n - k,
        {
            if !self.slots[k].done {
                all_done = false;
            }
            k = k + 1;
        }
        if !all_done {
            proof {
                let i0 = choose|i: int| 0 <= i < n && !self.slots@[i].done;
                assert(!self.is_done(i0));
                assert(Self::stepped_via(pre, *self, cx0, *cx, chain));
            }
            return None;
        }
        // every slot is done: extract each retained result exactly once, in
        // slot-index order
        let mut out: Vec<T::Output> = Vec::new();
        let ghost mid = *self;
        let mut k: usize = 0;
        while k < n
            invariant
                self.slots@ == mid.slots@,
                self.results@.len() == n,
                mid.results@.len() == n,
                mid.slots@.len() == n,
                self.finished == false,
                k <= n,
                out@.len() == k,
                forall|i: int| 0 <= i < n ==> #[trigger] mid.slots@[i].done,
                forall|i: int| 0 <= i < n ==> (#[trigger] mid.results@[i] is Some),
                forall|i: int| 0 <= i < n ==> (#[trigger] mid.results@[i] matches Some(v)
                    ==> v == mid.slots@[i].task.output()),
                forall|i: int| k <= i < n ==> #[trigger] self.results@[i] == mid.results@[i],
                forall|i: int| 0 <= i < k ==> (#[trigger] self.results@[i]) is None,
                forall|i: int| 0 <= i < k
                    ==> #[trigger] out@[i] == mid.slots@[i].task.output(),
            decreases n - k,
        {
            let taken = self.results[k].take();
            match taken {
                Some(v) => out.push(v),
                None => {
                    proof {
                        assert(false);
                    }
                },
            }
            k = k + 1;
        }
        self.finished = true;
        proof {
            assert(Self::stepped_via(pre, *self, cx0, *cx, chain));
        }
        Some(out)
    }

    /// The boundary that detects the protocol violation of polling a
    /// combinator again after it reported completion: such a poll is rejected
    /// with an explicit violation, never silently answered, and leaves the
    /// combinator untouched.
    pub fn poll_checked(&mut self, cx: &mut T::Cx) -> (r: Result<
        Option<Vec<T::Output>>,
        Violation,
    >)
        requires
            old(self).wf(),
            T::cx_wf(old(cx)),
        ensures
            final(self).wf(),
            T::cx_wf(final(cx)),
            old(self).completed() ==> r == Result::<Option<Vec<T::Output>>, Violation>::Err(
                Violation::PolledAfterCompletion,
            ) && *final(self) == *old(self) && *final(cx) == *old(cx),
            !old(self).completed() ==> ({
                &&& r is Ok
                &&& final(self).n() == old(self).n()
                &&& (forall|i: int|
                    0 <= i < old(self).n() && old(self).is_done(i)
                        ==> #[trigger] final(self).task_at(i) == old(self).task_at(i)
                            && final(self).is_done(i))
                &&& (forall|i: int|
                    0 <= i < old(self).n() && !old(self).is_done(i)
                        ==> (#[trigger] final(self).task_at(i)).polls()
                            == old(self).task_at(i).polls() + 1)
                &&& (forall|i: int|
                    0 <= i < old(self).n()
                        ==> (#[trigger] final(self).is_done(i)
                            <==> final(self).task_at(i).done()))
                &&& ((r->Ok_0 is Some) <==> (forall|i: int|
                    0 <= i < final(self).n() ==> #[trigger] final(self).is_done(i)))
                &&& ((r->Ok_0 is Some) <==> final(self).completed())
                &&& (r->Ok_0 matches Some(vs) ==> vs@.len() == old(self).n()
                    && (forall|i: int|
                        0 <= i < vs@.len()
                            ==> #[trigger] vs@[i] == final(self).task_at(i).output()))
                &&& (exists|mids: Seq<T::Cx>|
                    Self::stepped_via(*old(self), *final(self), *old(cx), *final(cx), mids))
            }),
    {
        if self.finished {
            return Err(Violation::PolledAfterCompletion);
        }
        Ok(self.poll(cx))
    }
}

} // verus!
