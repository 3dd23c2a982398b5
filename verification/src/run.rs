//! Driving a rewritten body to its value: issue each bound operand as an echo
//! request, join the tasks, and, once the join completes, evaluate the
//! residual statements under the extracted results.

use vstd::prelude::*;
use crate::ast::{dup_ident, dup_stmt, Expr, Fun, FunV, Ident, IdentV, Stmt, StmtV};
use crate::echo::{echo_poll_step, Echo, EchoTask};
use crate::eval::{eval_stmts, eval_body_from, EvalErr, Value, ValueV};
use crate::join::JoinCombinator;
use crate::task::Task;
use crate::transform::{
    await_ops_in_body, binders_from, lemma_binders_len, residual_from, rewritten_body,
    rewritten_fun, task_bindings, task_names,
};

verus! {

/// Why a rewritten body could not be driven.
#[derive(Clone, Copy, Debug, PartialEq, Eq, Structural)]
pub enum RunError {
    /// The function is not asynchronous or its body is not in the rewritten
    /// (joined) shape.
    NotJoinedForm,
    /// A task binding's operand is not a request to the echo collaborator.
    UnsupportedOperand,
    /// The residual statements failed to evaluate.
    Eval(EvalErr),
}

/// One step outcome of driving a rewritten body.
#[derive(Debug, PartialEq, Eq)]
pub enum Step {
    /// Some joined task is still pending.
    Pending,
    /// Every task completed and the residual body evaluated to this value.
    Ready(Value),
}

/// Whether `f`'s body has the rewritten structure: the combinator definition
/// for `n` tasks, then (for `n > 0`) `n` task bindings and the join binding
/// destructured into `n` results.
pub open spec fn well_shaped(f: FunV) -> bool {
    &&& f.is_async
    &&& f.body.len() >= 1
    &&& f.body[0] is JoinDef
    &&& arity(f) >= 0
    &&& (arity(f) > 0 ==> {
        &&& f.body.len() >= arity(f) + 2
        &&& (forall|i: int| 0 <= i < arity(f) ==> (#[trigger] f.body[1 + i]) is Let)
        &&& f.body[arity(f) + 1] is JoinAwait
        &&& f.body[arity(f) + 1]->JoinAwait_results.len() == arity(f)
    })
}

/// The number of joined tasks the body was rewritten for.
pub open spec fn arity(f: FunV) -> int {
    f.body[0]->JoinDef_0
}

/// Whether every task binding's operand is a request to the echo
/// collaborator.
pub open spec fn echo_operands(f: FunV) -> bool {
    forall|i: int| 0 <= i < arity(f) ==> (#[trigger] f.body[1 + i])->Let_1 is Request
}

/// Whether the body can be driven by this harness.
pub open spec fn joined_form(f: FunV) -> bool {
    well_shaped(f) && echo_operands(f)
}

/// The key that task `i`'s operand requests.
pub open spec fn key_at(f: FunV, i: int) -> Seq<char> {
    f.body[1 + i]->Let_1->Request_0
}

/// The result binders of the join, in ordinal order.
pub open spec fn binders_of(f: FunV) -> Seq<IdentV> {
    if arity(f) == 0 {
        Seq::empty()
    } else {
        f.body[arity(f) + 1]->JoinAwait_results
    }
}

/// The statements after the join: the rewritten remainder of the body.
pub open spec fn residual_of(f: FunV) -> Seq<StmtV> {
    if arity(f) == 0 {
        f.body.skip(1)
    } else {
        f.body.skip(arity(f) + 2)
    }
}

/// What a chain of echo-task poll steps, one per still-pending slot in slot
/// order, does to the registry between the start of a pass (`mids[0]`) and
/// its end (`mids[m]`): requests are untouched; fulfilled keys are only ever
/// consumed, and only by the first pending slot that carries the key and
/// finds it fulfilled; that slot, and no other, completes; each pending
/// slot's key is charged one poll.
proof fn lemma_echo_chain(
    pre: JoinCombinator<EchoTask>,
    post: JoinCombinator<EchoTask>,
    mids: Seq<Echo>,
    m: int,
)
    requires
        0 <= m <= pre.n(),
        mids.len() == pre.n() + 1,
        forall|i: int|
            0 <= i < pre.n() ==> (if pre.is_done(i) {
                mids[i + 1] == mids[i]
            } else {
                echo_poll_step(pre.task_at(i), #[trigger] mids[i], post.task_at(i), mids[i + 1])
            }),
    ensures
        forall|k: Seq<char>| (#[trigger] mids[m].requested(k) <==> mids[0].requested(k)),
        forall|k: Seq<char>| #[trigger] mids[m].returned(k) ==> mids[0].returned(k),
        forall|k: Seq<char>|
            mids[0].returned(k) && (forall|i: int|
                0 <= i < m && !pre.is_done(i) && pre.task_at(i).key() == k
                    ==> !(#[trigger] post.task_at(i)).done()) ==> #[trigger] mids[m].returned(k),
        forall|i: int|
            0 <= i < m && !pre.is_done(i) && (#[trigger] post.task_at(i)).done()
                ==> !mids[m].returned(pre.task_at(i).key())
                    && mids[0].returned(pre.task_at(i).key()),
        forall|i: int|
            0 <= i < m && !pre.is_done(i) && mids[0].returned(pre.task_at(i).key()) && (forall|
                j: int,
            |
                0 <= j < i && !pre.is_done(j) ==> pre.task_at(j).key() != pre.task_at(i).key())
                ==> (#[trigger] post.task_at(i)).done(),
        forall|k: Seq<char>|
            (forall|i: int| 0 <= i < m && !pre.is_done(i) ==> pre.task_at(i).key() != k)
                ==> #[trigger] mids[m].poll_count(k) == mids[0].poll_count(k),
        forall|i: int|
            0 <= i < m && !pre.is_done(i) && (forall|j: int|
                0 <= j < m && !pre.is_done(j) && pre.task_at(j).key() == pre.task_at(i).key()
                    ==> j == i) && mids[0].poll_count(pre.task_at(i).key()) < u64::MAX
                ==> #[trigger] mids[m].poll_count(pre.task_at(i).key()) == mids[0].poll_count(
                pre.task_at(i).key(),
            ) + 1,
    decreases m,
{
    if m > 0 {
        lemma_echo_chain(pre, post, mids, m - 1);
        // the step of slot m - 1 never newly fulfils a key
        assert forall|k: Seq<char>| #[trigger] mids[m].returned(k) implies mids[m - 1].returned(
            k,
        ) by {
            if !pre.is_done(m - 1) {
                let t0 = pre.task_at(m - 1);
                let t1 = post.task_at(m - 1);
                assert(echo_poll_step(t0, mids[m - 1], t1, mids[m]));
                if k == t0.key() {
                    if t1.done() {
                        assert(!mids[m].returned(k));
                    }
                }
            }
        }
        assert forall|k: Seq<char>|
            mids[0].returned(k) && (forall|i: int|
                0 <= i < m && !pre.is_done(i) && pre.task_at(i).key() == k
                    ==> !(#[trigger] post.task_at(i)).done()) implies (#[trigger] mids[m]).returned(k) by {
            assert(mids[m - 1].returned(k));
            if !pre.is_done(m - 1) {
                let t0 = pre.task_at(m - 1);
                let t1 = post.task_at(m - 1);
                assert(echo_poll_step(t0, mids[m - 1], t1, mids[m]));
                if t0.key() == k {
                    assert(!t1.done());
                }
            }
        }
        assert forall|i: int|
            0 <= i < m && !pre.is_done(i) && (#[trigger] post.task_at(i)).done()
            implies !mids[m].returned(pre.task_at(i).key())
            && mids[0].returned(pre.task_at(i).key()) by {
            let ky = pre.task_at(i).key();
            if i == m - 1 {
                assert(echo_poll_step(pre.task_at(i), mids[i], post.task_at(i), mids[i + 1]));
                assert(mids[m - 1].returned(ky));
            } else {
                assert(!mids[m - 1].returned(ky));
                if !pre.is_done(m - 1) {
                    let t0 = pre.task_at(m - 1);
                    let t1 = post.task_at(m - 1);
                    assert(echo_poll_step(t0, mids[m - 1], t1, mids[m]));
                    if ky == t0.key() {
                        if t1.done() {
                            assert(!mids[m].returned(ky));
                        }
                    }
                }
            }
        }
        assert forall|i: int|
            0 <= i < m && !pre.is_done(i) && mids[0].returned(pre.task_at(i).key()) && (forall|
                j: int,
            |
                0 <= j < i && !pre.is_done(j) ==> pre.task_at(j).key() != pre.task_at(i).key())
            implies (#[trigger] post.task_at(i)).done() by {
            if i == m - 1 {
                let ky = pre.task_at(i).key();
                assert(mids[m - 1].returned(ky));
                assert(echo_poll_step(pre.task_at(i), mids[i], post.task_at(i), mids[i + 1]));
            }
        }
        assert forall|k: Seq<char>|
            (forall|i: int| 0 <= i < m && !pre.is_done(i) ==> pre.task_at(i).key() != k)
            implies #[trigger] mids[m].poll_count(k) == mids[0].poll_count(k) by {
            assert(mids[m - 1].poll_count(k) == mids[0].poll_count(k));
            if !pre.is_done(m - 1) {
                let t0 = pre.task_at(m - 1);
                assert(echo_poll_step(t0, mids[m - 1], post.task_at(m - 1), mids[m]));
                assert(t0.key() != k);
            }
        }
        assert forall|i: int|
            0 <= i < m && !pre.is_done(i) && (forall|j: int|
                0 <= j < m && !pre.is_done(j) && pre.task_at(j).key() == pre.task_at(i).key()
                    ==> j == i) && mids[0].poll_count(pre.task_at(i).key()) < u64::MAX
            implies (#[trigger] mids[m]).poll_count(pre.task_at(i).key()) == mids[0].poll_count(
            pre.task_at(i).key(),
        ) + 1 by {
            let ky = pre.task_at(i).key();
            if i == m - 1 {
                assert(mids[m - 1].poll_count(ky) == mids[0].poll_count(ky)) by {
                    assert(forall|j: int|
                        0 <= j < m - 1 && !pre.is_done(j)
                            ==> (#[trigger] pre.task_at(j)).key() != ky);
                }
                assert(echo_poll_step(pre.task_at(i), mids[i], post.task_at(i), mids[i + 1]));
            } else {
                assert(mids[m - 1].poll_count(ky) == mids[0].poll_count(ky) + 1);
                if !pre.is_done(m - 1) {
                    let t0 = pre.task_at(m - 1);
                    assert(echo_poll_step(t0, mids[m - 1], post.task_at(m - 1), mids[m]));
                    assert(t0.key() != ky);
                }
            }
        }
        assert forall|k: Seq<char>| (#[trigger] mids[m].requested(k) <==> mids[0].requested(
            k,
        )) by {
            assert(mids[m - 1].requested(k) <==> mids[0].requested(k));
            if !pre.is_done(m - 1) {
                assert(echo_poll_step(pre.task_at(m - 1), mids[m - 1], post.task_at(m - 1),
                mids[m]));
            }
        }
    }
}

/// What the rewriter emits is what this harness drives: for an asynchronous
/// function all of whose awaited operands are echo requests, the rewritten
/// body is in the joined form that `Runner::start` accepts.
pub proof fn lemma_rewrite_is_drivable(f: FunV)
    requires
        f.is_async,
        forall|i: int|
            0 <= i < await_ops_in_body(f.body).len()
                ==> (#[trigger] await_ops_in_body(f.body)[i]) is Request,
    ensures
        joined_form(rewritten_fun(f)),
{
    let ops = await_ops_in_body(f.body);
    let n = ops.len() as int;
    let g = rewritten_fun(f);
    let rb = rewritten_body(f.body);
    assert(g.body == rb);
    if n == 0 {
        assert(rb == seq![StmtV::JoinDef(0)] + f.body);
        assert(rb[0] == StmtV::JoinDef(0));
        assert(arity(g) == 0);
        assert(well_shaped(g));
        assert(echo_operands(g));
    } else {
        let bindings = task_bindings(ops);
        let joinst = StmtV::JoinAwait {
            results: binders_from(f.body, 0, 0),
            tasks: task_names(n),
        };
        assert(rb == seq![StmtV::JoinDef(n)] + bindings + seq![joinst] + residual_from(
            f.body,
            0,
            0,
        ));
        assert(rb[0] == StmtV::JoinDef(n));
        assert(arity(g) == n);
        assert(rb.len() >= n + 2);
        assert forall|i: int|
            0 <= i < n implies (#[trigger] rb[1 + i]) is Let && rb[1 + i]->Let_1
            is Request by {
            assert(rb[1 + i] == bindings[i]);
            assert(bindings[i] == StmtV::Let(IdentV::TaskSlot(i), ops[i]));
            assert(ops[i] is Request);
        }
        assert(rb[n + 1] == joinst);
        lemma_binders_len(f.body, 0, 0);
        assert(rb[n + 1]->JoinAwait_results.len() == n);
        assert(well_shaped(g));
        assert(echo_operands(g));
    }
}

/// A rewritten body being driven: the join combinator over its issued echo
/// tasks, the result binders, and the residual statements.
pub struct Runner {
    combinator: JoinCombinator<EchoTask>,
    binders: Vec<Ident>,
    residual: Vec<Stmt>,
    complete: bool,
}

impl Runner {
    /// The join combinator state.
    pub closed spec fn inner(&self) -> JoinCombinator<EchoTask> {
        self.combinator
    }

    /// The number of joined tasks.
    pub closed spec fn n(&self) -> nat {
        self.combinator.n()
    }

    /// Whether this runner has delivered its outcome.
    pub closed spec fn finished(&self) -> bool {
        self.complete
    }

    /// The result binders, in ordinal order.
    pub closed spec fn binder_names(&self) -> Seq<IdentV> {
        self.binders.deep_view()
    }

    /// The residual statements.
    pub closed spec fn residual_body(&self) -> Seq<StmtV> {
        self.residual.deep_view()
    }

    /// Internal consistency.
    pub closed spec fn wf(&self) -> bool {
        &&& self.combinator.wf()
        &&& self.binders@.len() == self.combinator.n()
        &&& (!self.complete ==> !self.combinator.completed())
    }

    /// The environment the residual statements are evaluated under once the
    /// join completes: binder `i` holds the output of task `i`.
    pub open spec fn env_of(&self) -> Seq<(IdentV, ValueV)> {
        Seq::new(
            self.n(),
            |i: int| (self.binder_names()[i], ValueV::Str(self.inner().task_at(i).output()@)),
        )
    }

    /// Whether every joined task has completed.
    pub open spec fn all_done(&self) -> bool {
        forall|i: int| 0 <= i < self.n() ==> #[trigger] self.inner().is_done(i)
    }

    /// Take a rewritten function and issue one echo request per task binding,
    /// in ordinal order; nothing is polled yet. A body that is not in the
    /// rewritten shape, or whose operands are not echo requests, is rejected
    /// without touching the registry.
    pub fn start(tf: &Fun, reg: &mut Echo) -> (r: Result<Runner, RunError>)
        requires
            old(reg).wf(),
        ensures
            final(reg).wf(),
            (r is Ok) <==> joined_form(tf@),
            !well_shaped(tf@) ==> r == Result::<Runner, RunError>::Err(RunError::NotJoinedForm),
            (well_shaped(tf@) && !echo_operands(tf@)) ==> r == Result::<Runner, RunError>::Err(
                RunError::UnsupportedOperand,
            ),
            r is Err ==> *final(reg) == *old(reg),
            r matches Ok(run) ==> {
                &&& run.wf()
                &&& !run.finished()
                &&& run.n() == arity(tf@)
                &&& run.binder_names() == binders_of(tf@)
                &&& run.residual_body() == residual_of(tf@)
                &&& (forall|i: int|
                    0 <= i < run.n() ==> {
                        &&& !(#[trigger] run.inner().task_at(i)).done()
                        &&& run.inner().task_at(i).polls() == 0
                        &&& run.inner().task_at(i).key() == key_at(tf@, i)
                        &&& run.inner().task_at(i).output()@ == key_at(tf@, i)
                        &&& !run.inner().is_done(i)
                    })
                &&& (forall|k: Seq<char>|
                    old(reg).requested(k) ==> #[trigger] final(reg).requested(k))
                &&& (forall|i: int|
                    0 <= i < run.n() ==> final(reg).requested(#[trigger] key_at(tf@, i)))
                &&& (forall|k: Seq<char>|
                    (#[trigger] final(reg).returned(k) <==> old(reg).returned(k)))
                &&& (forall|k: Seq<char>|
                    #[trigger] final(reg).poll_count(k) == old(reg).poll_count(k))
            },
    {
        if !tf.is_async {
            return Err(RunError::NotJoinedForm);
        }
        if tf.body.len() == 0 {
            return Err(RunError::NotJoinedForm);
        }
        let ghost fv = tf@;
        proof {
            assert(fv.body[0] == tf.body@[0]@);
        }
        let n: usize = match &tf.body[0] {
            Stmt::JoinDef(n) => *n,
            _ => {
                return Err(RunError::NotJoinedForm);
            },
        };
        let body_len = tf.body.len();
        let mut binders: Vec<Ident> = Vec::new();
        let mut keys: Vec<String> = Vec::new();
        if n > 0 {
            if n > body_len || body_len - n < 2 {
                return Err(RunError::NotJoinedForm);
            }
            // every task binding must be a `let`
            let mut i: usize = 0;
            while i < n
                invariant
                    fv == tf@,
                    fv.is_async,
                    fv.body.len() >= n + 2,
                    fv.body[0] is JoinDef,
                    arity(fv) == n,
                    i <= n,
                    *reg == *old(reg),
                    old(reg).wf(),
                    forall|j: int| 0 <= j < i ==> (#[trigger] fv.body[1 + j]) is Let,
                decreases n - i,
            {
                proof {
                    assert(fv.body[1 + i as int] == tf.body@[1 + i as int]@);
                }
                match &tf.body[1 + i] {
                    Stmt::Let(_, _) => {},
                    _ => {
                        proof {
                            assert(!(fv.body[1 + i as int] is Let));
                            assert(!well_shaped(fv));
                        }
                        return Err(RunError::NotJoinedForm);
                    },
                }
                i = i + 1;
            }
            // the join binding, with one result binder per task
            proof {
                assert(fv.body[n as int + 1] == tf.body@[n as int + 1]@);
            }
            match &tf.body[n + 1] {
                Stmt::JoinAwait { results, tasks: _ } => {
                    if results.len() != n {
                        return Err(RunError::NotJoinedForm);
                    }
                    let mut i: usize = 0;
                    while i < n
                        invariant
                            n == results@.len(),
                            i <= n,
                            binders.deep_view() =~= results.deep_view().take(i as int),
                        decreases n - i,
                    {
                        let ghost pre = binders.deep_view();
                        binders.push(dup_ident(&results[i]));
                        proof {
                            assert(binders.deep_view() =~= pre.push(
                                results.deep_view()[i as int],
                            ));
                            assert(results.deep_view().take(i as int + 1)
                                =~= results.deep_view().take(i as int).push(
                                results.deep_view()[i as int],
                            ));
                        }
                        i = i + 1;
                    }
                    proof {
                        assert(results.deep_view().take(n as int) =~= results.deep_view());
                    }
                },
                _ => {
                    return Err(RunError::NotJoinedForm);
                },
            }
            // every operand must be an echo request; collect the keys
            let mut i: usize = 0;
            while i < n
                invariant
                    fv == tf@,
                    well_shaped(fv),
                    arity(fv) == n,
                    fv.body.len() >= n + 2,
                    i <= n,
                    *reg == *old(reg),
                    old(reg).wf(),
                    keys@.len() == i,
                    forall|j: int| 0 <= j < i ==> (#[trigger] fv.body[1 + j])->Let_1 is Request,
                    forall|j: int| 0 <= j < i ==> (#[trigger] keys@[j])@ == key_at(fv, j),
                decreases n - i,
            {
                proof {
                    assert(fv.body[1 + i as int] == tf.body@[1 + i as int]@);
                }
                match &tf.body[1 + i] {
                    Stmt::Let(_, e) => match e {
                        Expr::Request(s) => {
                            keys.push(s.clone());
                        },
                        _ => {
                            proof {
                                assert(!(fv.body[1 + i as int]->Let_1 is Request));
                                assert(!echo_operands(fv));
                            }
                            return Err(RunError::UnsupportedOperand);
                        },
                    },
                    _ => {
                        proof {
                            assert(false);
                        }
                    },
                }
                i = i + 1;
            }
        }
        // the shape is accepted: issue one request per operand, in order
        let ghost reg0 = *reg;
        let mut tasks: Vec<EchoTask> = Vec::new();
        let nkeys = keys.len();
        let mut i: usize = 0;
        while i < nkeys
            invariant
                reg.wf(),
                nkeys == keys@.len(),
                i <= nkeys,
                tasks@.len() == i,
                forall|j: int| 0 <= j < nkeys ==> (#[trigger] keys@[j])@ == key_at(fv, j),
                forall|j: int|
                    0 <= j < i ==> {
                        &&& !(#[trigger] tasks@[j]).done()
                        &&& tasks@[j].polls() == 0
                        &&& tasks@[j].key() == key_at(fv, j)
                        &&& tasks@[j].output()@ == key_at(fv, j)
                    },
                forall|k: Seq<char>| reg0.requested(k) ==> #[trigger] reg.requested(k),
                forall|j: int| 0 <= j < i ==> reg.requested(#[trigger] key_at(fv, j)),
                forall|k: Seq<char>| (#[trigger] reg.returned(k) <==> reg0.returned(k)),
                forall|k: Seq<char>| #[trigger] reg.poll_count(k) == reg0.poll_count(k),
            decreases nkeys - i,
        {
            let t = reg.echo(keys[i].as_str());
            tasks.push(t);
            i = i + 1;
        }
        // the residual statements
        let start_idx: usize = if n == 0 {
            1
        } else {
            n + 2
        };
        let mut residual: Vec<Stmt> = Vec::new();
        let mut i: usize = start_idx;
        while i < body_len
            invariant
                fv == tf@,
                body_len == fv.body.len(),
                start_idx <= i <= body_len,
                residual.deep_view() =~= fv.body.subrange(start_idx as int, i as int),
            decreases body_len - i,
        {
            let ghost pre = residual.deep_view();
            residual.push(dup_stmt(&tf.body[i]));
            proof {
                assert(residual.deep_view() =~= pre.push(fv.body[i as int]));
                assert(fv.body.subrange(start_idx as int, i as int + 1) =~= fv.body.subrange(
                    start_idx as int,
                    i as int,
                ).push(fv.body[i as int]));
            }
            i = i + 1;
        }
        proof {
            assert(residual.deep_view() =~= residual_of(fv));
        }
        let combinator = JoinCombinator::join(tasks);
        Ok(Runner { combinator, binders, residual, complete: false })
    }

    /// One outer poll. Every still-pending task is polled exactly once, in
    /// ordinal order. While any task is still pending the step reports
    /// `Pending`; once every task has completed, the residual statements are
    /// evaluated under the results, bound in ordinal order, and the step
    /// reports the resulting value (or the evaluation error).
    pub fn poll(&mut self, reg: &mut Echo) -> (r: Result<Step, RunError>)
        requires
            old(self).wf(),
            !old(self).finished(),
            old(reg).wf(),
        ensures
            final(reg).wf(),
            final(self).wf(),
            final(self).n() == old(self).n(),
            final(self).binder_names() == old(self).binder_names(),
            final(self).residual_body() == old(self).residual_body(),
            // completed tasks are left untouched; pending ones advance by one
            forall|i: int|
                0 <= i < old(self).n() && old(self).inner().is_done(i)
                    ==> #[trigger] final(self).inner().task_at(i) == old(self).inner().task_at(i)
                        && final(self).inner().is_done(i),
            forall|i: int|
                0 <= i < old(self).n() && !old(self).inner().is_done(i)
                    ==> (#[trigger] final(self).inner().task_at(i)).polls()
                        == old(self).inner().task_at(i).polls() + 1,
            forall|i: int|
                0 <= i < old(self).n()
                    ==> (#[trigger] final(self).inner().is_done(i)
                        <==> final(self).inner().task_at(i).done()),
            // a pending slot keeps its key and its eventual output
            forall|i: int|
                0 <= i < old(self).n() && !old(self).inner().is_done(i)
                    ==> (#[trigger] final(self).inner().task_at(i)).key() == old(
                        self,
                    ).inner().task_at(i).key() && final(self).inner().task_at(i).output() == old(
                        self,
                    ).inner().task_at(i).output(),
            // the pass leaves requests alone and only ever consumes fulfilled
            // keys
            forall|k: Seq<char>| (#[trigger] final(reg).requested(k) <==> old(reg).requested(k)),
            forall|k: Seq<char>| #[trigger] final(reg).returned(k) ==> old(reg).returned(k),
            // a fulfilled key that no pending slot completes on stays
            // fulfilled
            forall|k: Seq<char>|
                old(reg).returned(k) && (forall|i: int|
                    0 <= i < old(self).n() && !old(self).inner().is_done(i) && old(
                        self,
                    ).inner().task_at(i).key() == k
                        ==> !(#[trigger] final(self).inner().task_at(i)).done())
                    ==> #[trigger] final(reg).returned(k),
            // a pending slot completes only on a key fulfilled at the start
            // of the pass, and completing consumes the mark
            forall|i: int|
                0 <= i < old(self).n() && !old(self).inner().is_done(i)
                    && (#[trigger] final(self).inner().task_at(i)).done()
                    ==> old(reg).returned(old(self).inner().task_at(i).key())
                        && !final(reg).returned(old(self).inner().task_at(i).key()),
            // a pending slot whose key is fulfilled and not shared with an
            // earlier pending slot does complete
            forall|i: int|
                0 <= i < old(self).n() && !old(self).inner().is_done(i) && old(reg).returned(
                    old(self).inner().task_at(i).key(),
                ) && (forall|j: int|
                    0 <= j < i && !old(self).inner().is_done(j)
                        ==> (#[trigger] old(self).inner().task_at(j)).key() != old(
                            self,
                        ).inner().task_at(i).key())
                    ==> (#[trigger] final(self).inner().task_at(i)).done(),
            // each pending slot's key is charged one poll; untouched keys
            // keep their count
            forall|k: Seq<char>|
                (forall|i: int|
                    0 <= i < old(self).n() && !old(self).inner().is_done(i)
                        ==> (#[trigger] old(self).inner().task_at(i)).key() != k)
                    ==> #[trigger] final(reg).poll_count(k) == old(reg).poll_count(k),
            forall|i: int|
                0 <= i < old(self).n() && !old(self).inner().is_done(i) && (forall|j: int|
                    0 <= j < old(self).n() && !old(self).inner().is_done(j)
                        && (#[trigger] old(self).inner().task_at(j)).key() == old(
                        self,
                    ).inner().task_at(i).key() ==> j == i) && old(reg).poll_count(
                    old(self).inner().task_at(i).key(),
                ) < u64::MAX
                    ==> #[trigger] final(reg).poll_count(old(self).inner().task_at(i).key())
                        == old(reg).poll_count(old(self).inner().task_at(i).key()) + 1,
            // pending while any task is; the value once all have completed
            !final(self).all_done() ==> r == Result::<Step, RunError>::Ok(Step::Pending)
                && !final(self).finished(),
            final(self).all_done() ==> final(self).finished() && (match eval_body_from(
                old(self).residual_body(),
                0,
                final(self).env_of(),
            ) {
                Ok(v) => r matches Ok(s) && s matches Step::Ready(rv) && rv@ == v,
                Err(er) => r == Result::<Step, RunError>::Err(RunError::Eval(er)),
            }),
    {
        let ghost cpre = self.combinator;
        let ghost rpre = *reg;
        let stepped = self.combinator.poll(reg);
        proof {
            let mids = choose|mids: Seq<Echo>|
                JoinCombinator::<EchoTask>::stepped_via(cpre, self.combinator, rpre, *reg, mids);
            assert forall|i: int|
                0 <= i < cpre.n() implies (if cpre.is_done(i) {
                mids[i + 1] == mids[i]
            } else {
                echo_poll_step(cpre.task_at(i), #[trigger] mids[i], self.combinator.task_at(i),
                mids[i + 1])
            }) by {
                if !cpre.is_done(i) {
                    assert(EchoTask::step(cpre.task_at(i), mids[i], self.combinator.task_at(i),
                    mids[i + 1]));
                }
            }
            lemma_echo_chain(cpre, self.combinator, mids, cpre.n() as int);
            assert(mids[0] == rpre);
            assert(mids[cpre.n() as int] == *reg);
            assert forall|i: int|
                0 <= i < cpre.n() && !cpre.is_done(i) implies (#[trigger] self.combinator.task_at(
                i,
            )).key() == cpre.task_at(i).key() && self.combinator.task_at(i).output()
                == cpre.task_at(i).output() by {
                assert(echo_poll_step(cpre.task_at(i), mids[i], self.combinator.task_at(i),
                mids[i + 1]));
            }
            assert forall|k: Seq<char>|
                (forall|i: int|
                    0 <= i < old(self).n() && !old(self).inner().is_done(i)
                        ==> (#[trigger] old(self).inner().task_at(i)).key() != k)
                implies (*reg).poll_count(k) == old(reg).poll_count(k) by {
                assert forall|i: int|
                    0 <= i < cpre.n() && !cpre.is_done(i) implies (#[trigger] cpre.task_at(
                    i,
                )).key() != k by {
                    assert(cpre.task_at(i) == old(self).inner().task_at(i));
                }
                assert(mids[cpre.n() as int].poll_count(k) == mids[0].poll_count(k)) by {
                    assert(forall|i: int|
                        0 <= i < cpre.n() && !cpre.is_done(i) ==> cpre.task_at(i).key() != k);
                }
            }
        }
        match stepped {
            None => Ok(Step::Pending),
            Some(vals) => {
                self.complete = true;
                let ghost outs = vals.deep_view();
                proof {
                    assert forall|i: int| 0 <= i < outs.len() implies #[trigger] outs[i]
                        == self.combinator.task_at(i).output()@ by {
                        assert(vals@[i] == self.combinator.task_at(i).output());
                    }
                }
                let mut env: Vec<(Ident, Value)> = Vec::new();
                let mut vals = vals;
                let nvals = vals.len();
                let ghost me = *self;
                let mut i: usize = 0;
                while vals.len() > 0
                    invariant
                        *self == me,
                        outs.len() == nvals,
                        nvals == me.combinator.n(),
                        me.binders@.len() == nvals,
                        i <= nvals,
                        vals.deep_view() =~= outs.skip(i as int),
                        vals@.len() == nvals - i,
                        forall|j: int| 0 <= j < outs.len() ==> #[trigger] outs[j]
                            == me.combinator.task_at(j).output()@,
                        env.deep_view() =~= me.env_of().take(i as int),
                    decreases vals@.len(),
                {
                    let ghost dvpre = vals.deep_view();
                    let ghost vpre = vals@;
                    let v = vals.remove(0);
                    proof {
                        assert(vals@ =~= vpre.skip(1));
                        assert(v@ == dvpre[0]);
                        assert forall|t: int|
                            0 <= t < vals@.len() implies #[trigger] vals.deep_view()[t] == dvpre[t
                            + 1] by {
                            assert(vals@[t] == vpre[t + 1]);
                        }
                        assert(vals.deep_view() =~= outs.skip(i as int + 1));
                        assert(v@ == outs[i as int]);
                    }
                    let ghost epre = env.deep_view();
                    env.push((dup_ident(&self.binders[i]), Value::Str(v)));
                    proof {
                        assert(env.deep_view() =~= epre.push(
                            (me.binders.deep_view()[i as int], ValueV::Str(outs[i as int])),
                        ));
                        assert(me.env_of().take(i as int + 1) =~= me.env_of().take(i as int).push(
                            me.env_of()[i as int],
                        ));
                        assert(me.env_of()[i as int] == (
                            me.binders.deep_view()[i as int],
                            ValueV::Str(me.combinator.task_at(i as int).output()@),
                        ));
                    }
                    i = i + 1;
                }
                proof {
                    assert(i == nvals);
                    assert(me.env_of().take(nvals as int) =~= me.env_of());
                    assert(env.deep_view() =~= me.env_of());
                }
                let res = eval_stmts(&self.residual, 0, env);
                match res {
                    Ok(v) => Ok(Step::Ready(v)),
                    Err(er) => Err(RunError::Eval(er)),
                }
            },
        }
    }
}

} // verus!
