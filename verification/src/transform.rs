//! The collector and rewriter. The collector lists the operand of every
//! suspend-point of a body in one left-to-right, depth-first pass; the
//! rewriter emits a body that binds every operand as a not-yet-started task,
//! awaits a single join over all of them, and replaces each original
//! suspend-point by its ordinal's extracted result.

use vstd::prelude::*;
use crate::ast::{dup_expr, Expr, ExprV, Fun, FunV, Ident, IdentV, Stmt, StmtV};
use crate::eval::{eval_expr_v, lookup_v, EvalErr, ValueV};

verus! {

/// The awaited operands inside `e`, in first-encountered (pre-order,
/// left-to-right) traversal order. A nested suspend-point inside an awaited
/// operand is listed after the operand itself.
pub open spec fn await_ops_in_expr(e: ExprV) -> Seq<ExprV>
    decreases e,
{
    match e {
        ExprV::Await(b) => seq![*b] + await_ops_in_expr(*b),
        ExprV::Concat(a, b) => await_ops_in_expr(*a) + await_ops_in_expr(*b),
        _ => Seq::empty(),
    }
}

/// The awaited operands inside one statement.
pub open spec fn await_ops_in_stmt(s: StmtV) -> Seq<ExprV> {
    match s {
        StmtV::Let(_, e) => await_ops_in_expr(e),
        StmtV::Expr(e) => await_ops_in_expr(e),
        _ => Seq::empty(),
    }
}

/// The awaited operands of the statements from index `i` on.
pub open spec fn await_ops_from(b: Seq<StmtV>, i: int) -> Seq<ExprV>
    decreases b.len() - i,
{
    if 0 <= i < b.len() {
        await_ops_in_stmt(b[i]) + await_ops_from(b, i + 1)
    } else {
        Seq::empty()
    }
}

/// All awaited operands of a body, in collection order; the position of an
/// operand is its suspend-point's ordinal.
pub open spec fn await_ops_in_body(b: Seq<StmtV>) -> Seq<ExprV> {
    await_ops_from(b, 0)
}

/// `e` with every outermost suspend-point replaced by the result identifier
/// of its ordinal; ordinals are assigned from `k` on, in collection order.
pub open spec fn subst_expr_v(e: ExprV, k: int) -> ExprV
    decreases e,
{
    match e {
        ExprV::Await(_) => ExprV::Var(IdentV::ValueSlot(k)),
        ExprV::Concat(a, b) => ExprV::Concat(
            Box::new(subst_expr_v(*a, k)),
            Box::new(subst_expr_v(*b, k + await_ops_in_expr(*a).len())),
        ),
        other => other,
    }
}

/// The default result identifiers for `m` ordinals starting at `k`.
pub open spec fn slot_results(k: int, m: int) -> Seq<IdentV> {
    Seq::new(m as nat, |j: int| IdentV::ValueSlot(k + j))
}

/// The destructuring pattern of the join: one binder per ordinal, in ordinal
/// order. An ordinal whose suspend-point was the entire initializer of a
/// `let` is bound by that `let`'s own pattern (the `let` itself is removed);
/// every other ordinal gets its synthetic result identifier.
pub open spec fn binders_from(b: Seq<StmtV>, i: int, k: int) -> Seq<IdentV>
    decreases b.len() - i,
{
    if 0 <= i < b.len() {
        let m = await_ops_in_stmt(b[i]).len() as int;
        let here = match b[i] {
            StmtV::Let(p, e) => if e is Await {
                seq![p] + slot_results(k + 1, m - 1)
            } else {
                slot_results(k, m)
            },
            _ => slot_results(k, m),
        };
        here + binders_from(b, i + 1, k + m)
    } else {
        Seq::empty()
    }
}

/// The remainder of the body after rewriting: every suspend-point replaced by
/// its result identifier, and every `let` whose entire initializer was a bare
/// suspend-point removed (its pattern is bound by the join's destructure).
pub open spec fn residual_from(b: Seq<StmtV>, i: int, k: int) -> Seq<StmtV>
    decreases b.len() - i,
{
    if 0 <= i < b.len() {
        let m = await_ops_in_stmt(b[i]).len() as int;
        let here = match b[i] {
            StmtV::Let(p, e) => if e is Await {
                Seq::<StmtV>::empty()
            } else {
                seq![StmtV::Let(p, subst_expr_v(e, k))]
            },
            StmtV::Expr(e) => seq![StmtV::Expr(subst_expr_v(e, k))],
            other => seq![other],
        };
        here + residual_from(b, i + 1, k + m)
    } else {
        Seq::empty()
    }
}

/// One task binding per collected operand, in collection order: ordinal `i`'s
/// operand is evaluated into the task identifier of ordinal `i`.
pub open spec fn task_bindings(ops: Seq<ExprV>) -> Seq<StmtV> {
    Seq::new(ops.len(), |i: int| StmtV::Let(IdentV::TaskSlot(i), ops[i]))
}

/// The task identifiers handed to the join, in ordinal order.
pub open spec fn task_names(n: int) -> Seq<IdentV> {
    Seq::new(n as nat, |i: int| IdentV::TaskSlot(i))
}

/// The rewritten body: the combinator definition, the task bindings in
/// collection order, one join over all tasks destructured into the binders,
/// then the residual statements. With no suspend-point at all, only the
/// (unused) combinator definition is added.
pub open spec fn rewritten_body(b: Seq<StmtV>) -> Seq<StmtV> {
    let ops = await_ops_in_body(b);
    if ops.len() == 0 {
        seq![StmtV::JoinDef(0)] + b
    } else {
        seq![StmtV::JoinDef(ops.len() as int)] + task_bindings(ops) + seq![
            StmtV::JoinAwait {
                results: binders_from(b, 0, 0),
                tasks: task_names(ops.len() as int),
            }
        ] + residual_from(b, 0, 0)
    }
}

/// The whole transform: a function not declared asynchronous is left
/// untouched; an asynchronous one keeps its signature and gets the rewritten
/// body.
pub open spec fn rewritten_fun(f: FunV) -> FunV {
    if f.is_async {
        FunV { is_async: true, body: rewritten_body(f.body) }
    } else {
        f
    }
}

/// After substitution an expression holds no suspend-point: every await was
/// replaced by its ordinal's result identifier.
pub proof fn lemma_subst_no_awaits(e: ExprV, k: int)
    ensures
        await_ops_in_expr(subst_expr_v(e, k)) == Seq::<ExprV>::empty(),
    decreases e,
{
    match e {
        ExprV::Concat(a, b) => {
            lemma_subst_no_awaits(*a, k);
            lemma_subst_no_awaits(*b, k + await_ops_in_expr(*a).len());
            assert(await_ops_in_expr(subst_expr_v(e, k)) =~= Seq::<ExprV>::empty());
        },
        _ => {
            assert(await_ops_in_expr(subst_expr_v(e, k)) =~= Seq::<ExprV>::empty());
        },
    }
}

/// Collection distributes over concatenation of statement lists.
proof fn lemma_ops_concat(s1: Seq<StmtV>, s2: Seq<StmtV>)
    ensures
        await_ops_from(s1 + s2, 0) == await_ops_from(s1, 0) + await_ops_from(s2, 0),
    decreases s1.len(),
{
    if s1.len() == 0 {
        assert(s1 + s2 =~= s2);
        assert(await_ops_from(s1, 0) =~= Seq::<ExprV>::empty());
        assert(await_ops_from(s1, 0) + await_ops_from(s2, 0) =~= await_ops_from(s2, 0));
    } else {
        lemma_ops_concat(s1.drop_first(), s2);
        lemma_ops_tail(s1 + s2, 1);
        lemma_ops_tail(s1, 1);
        assert((s1 + s2).drop_first() =~= s1.drop_first() + s2);
        assert(await_ops_from(s1 + s2, 0) == await_ops_in_stmt((s1 + s2)[0]) + await_ops_from(
            s1 + s2,
            1,
        ));
        assert((s1 + s2)[0] == s1[0]);
        assert(await_ops_from(s1 + s2, 0) =~= await_ops_from(s1, 0) + await_ops_from(s2, 0));
    }
}

/// Collecting from index 1 of a list is collecting from the start of its
/// tail.
proof fn lemma_ops_tail(b: Seq<StmtV>, i: int)
    requires
        b.len() >= 1,
        1 <= i,
    ensures
        await_ops_from(b, i) == await_ops_from(b.drop_first(), i - 1),
    decreases b.len() - i,
{
    if i < b.len() {
        lemma_ops_tail(b, i + 1);
        assert(b.drop_first()[i - 1] == b[i]);
    } else {
        assert(await_ops_from(b, i) =~= Seq::<ExprV>::empty());
        assert(await_ops_from(b.drop_first(), i - 1) =~= Seq::<ExprV>::empty());
    }
}

/// The rewritten remainder of a body suspends nowhere: every suspend-point
/// of the original body has moved into a task binding, and its occurrence
/// was replaced by a result identifier.
pub proof fn lemma_residual_no_awaits(b: Seq<StmtV>, i: int, k: int)
    ensures
        await_ops_from(residual_from(b, i, k), 0) == Seq::<ExprV>::empty(),
    decreases b.len() - i,
{
    if 0 <= i < b.len() {
        let m = await_ops_in_stmt(b[i]).len() as int;
        lemma_residual_no_awaits(b, i + 1, k + m);
        let here = match b[i] {
            StmtV::Let(p, e) => if e is Await {
                Seq::<StmtV>::empty()
            } else {
                seq![StmtV::Let(p, subst_expr_v(e, k))]
            },
            StmtV::Expr(e) => seq![StmtV::Expr(subst_expr_v(e, k))],
            other => seq![other],
        };
        match b[i] {
            StmtV::Let(p, e) => {
                if e is Await {
                    assert(await_ops_from(here, 0) =~= Seq::<ExprV>::empty());
                } else {
                    lemma_subst_no_awaits(e, k);
                    assert(here[0] == StmtV::Let(p, subst_expr_v(e, k)));
                    assert(await_ops_in_stmt(here[0]) =~= Seq::<ExprV>::empty());
                    assert(await_ops_from(here, 1) =~= Seq::<ExprV>::empty());
                    assert(await_ops_from(here, 0) =~= Seq::<ExprV>::empty());
                }
            },
            StmtV::Expr(e) => {
                lemma_subst_no_awaits(e, k);
                assert(here[0] == StmtV::Expr(subst_expr_v(e, k)));
                assert(await_ops_in_stmt(here[0]) =~= Seq::<ExprV>::empty());
                assert(await_ops_from(here, 1) =~= Seq::<ExprV>::empty());
                assert(await_ops_from(here, 0) =~= Seq::<ExprV>::empty());
            },
            _ => {
                assert(await_ops_in_stmt(here[0]) =~= Seq::<ExprV>::empty());
                assert(await_ops_from(here, 1) =~= Seq::<ExprV>::empty());
                assert(await_ops_from(here, 0) =~= Seq::<ExprV>::empty());
            },
        }
        lemma_ops_concat(here, residual_from(b, i + 1, k + m));
        assert(await_ops_from(residual_from(b, i, k), 0) =~= Seq::<ExprV>::empty());
    } else {
        assert(await_ops_from(residual_from(b, i, k), 0) =~= Seq::<ExprV>::empty());
    }
}

/// The value of an expression whose suspend-points are taken as already
/// resolved: the suspend-point of ordinal `j` stands for `outs[j]`, with
/// ordinals assigned from `k` on in collection order; everything around the
/// suspend-points means what it means under `env`.
pub open spec fn eval_resolved(
    e: ExprV,
    env: Seq<(IdentV, ValueV)>,
    outs: Seq<ValueV>,
    k: int,
) -> Result<ValueV, EvalErr>
    decreases e,
{
    match e {
        ExprV::Await(_) => Ok(outs[k]),
        ExprV::Concat(a, b) => match eval_resolved(*a, env, outs, k) {
            Ok(ValueV::Str(x)) => match eval_resolved(
                *b,
                env,
                outs,
                k + await_ops_in_expr(*a).len(),
            ) {
                Ok(ValueV::Str(y)) => Ok(ValueV::Str(x + y)),
                Ok(_) => Err(EvalErr::NotAString),
                Err(er) => Err(er),
            },
            Ok(_) => Err(EvalErr::NotAString),
            Err(er) => Err(er),
        },
        other => eval_expr_v(other, env),
    }
}

/// The substitution preserves the surrounding expression: replacing each
/// suspend-point by its ordinal's result identifier changes nothing about
/// what the expression evaluates to, provided the environment binds each of
/// those identifiers to the value its suspend-point resolved to.
pub proof fn lemma_subst_preserves_eval(
    e: ExprV,
    env: Seq<(IdentV, ValueV)>,
    outs: Seq<ValueV>,
    k: int,
)
    requires
        forall|j: int|
            k <= j < k + await_ops_in_expr(e).len() ==> lookup_v(
                env,
                IdentV::ValueSlot(j),
            ) == Some(outs[j]),
    ensures
        eval_expr_v(subst_expr_v(e, k), env) == eval_resolved(e, env, outs, k),
    decreases e,
{
    match e {
        ExprV::Await(_) => {
            assert(await_ops_in_expr(e).len() >= 1);
            assert(lookup_v(env, IdentV::ValueSlot(k)) == Some(outs[k]));
        },
        ExprV::Concat(a, b) => {
            lemma_subst_preserves_eval(*a, env, outs, k);
            lemma_subst_preserves_eval(*b, env, outs, k + await_ops_in_expr(*a).len());
        },
        _ => {},
    }
}

/// Every ordinal gets exactly one result binder: the destructure's arity is
/// the number of collected suspend-points.
pub proof fn lemma_binders_len(b: Seq<StmtV>, i: int, k: int)
    ensures
        binders_from(b, i, k).len() == await_ops_from(b, i).len(),
    decreases b.len() - i,
{
    if 0 <= i < b.len() {
        let m = await_ops_in_stmt(b[i]).len() as int;
        lemma_binders_len(b, i + 1, k + m);
        match b[i] {
            StmtV::Let(_, e) => {
                if e is Await {
                    assert(m >= 1);
                }
            },
            _ => {},
        }
    }
}

/// How many suspend-points `e` holds.
pub fn count_awaits(e: &Expr) -> (r: usize)
    requires
        await_ops_in_expr(e@).len() <= usize::MAX,
    ensures
        r == await_ops_in_expr(e@).len(),
    decreases *e,
{
    match e {
        Expr::Await(b) => {
            let inner = count_awaits(b);
            1 + inner
        },
        Expr::Concat(a, b) => {
            let left = count_awaits(a);
            let right = count_awaits(b);
            left + right
        },
        _ => 0,
    }
}

/// Append the operand of every suspend-point of `e` to `out`, in collection
/// order.
fn collect_expr(e: &Expr, out: &mut Vec<Expr>)
    ensures
        final(out).deep_view() == old(out).deep_view() + await_ops_in_expr(e@),
    decreases *e,
{
    let ghost d0 = out.deep_view();
    match e {
        Expr::Await(b) => {
            let op = dup_expr(b);
            out.push(op);
            proof {
                assert(out.deep_view() =~= d0.push(b@));
            }
            collect_expr(b, out);
            proof {
                assert(out.deep_view() =~= d0 + await_ops_in_expr(e@));
            }
        },
        Expr::Concat(a, b) => {
            collect_expr(a, out);
            collect_expr(b, out);
            proof {
                assert(out.deep_view() =~= d0 + await_ops_in_expr(e@));
            }
        },
        _ => {
            proof {
                assert(out.deep_view() =~= d0 + await_ops_in_expr(e@));
            }
        },
    }
}

/// The collection pass: the operand of every suspend-point of the body, in
/// one left-to-right, depth-first traversal, ordinal `i` at position `i`.
/// The body itself is read, never changed.
pub fn collect_awaits(f: &Fun) -> (out: Vec<Expr>)
    ensures
        out.deep_view() == await_ops_in_body(f@.body),
{
    let ghost bv = f@.body;
    let mut out: Vec<Expr> = Vec::new();
    let n = f.body.len();
    let mut i: usize = 0;
    while i < n
        invariant
            n == f.body@.len(),
            bv == f@.body,
            bv.len() == n,
            i <= n,
            out.deep_view() + await_ops_from(bv, i as int) =~= await_ops_from(bv, 0),
        decreases n - i,
    {
        let ghost dpre = out.deep_view();
        match &f.body[i] {
            Stmt::Let(_, e) => {
                collect_expr(e, &mut out);
            },
            Stmt::Expr(e) => {
                collect_expr(e, &mut out);
            },
            _ => {},
        }
        proof {
            assert(bv[i as int] == f.body@[i as int]@);
            assert(out.deep_view() =~= dpre + await_ops_in_stmt(bv[i as int]));
            assert(out.deep_view() + await_ops_from(bv, i as int + 1) =~= await_ops_from(bv, 0));
        }
        i = i + 1;
    }
    proof {
        assert(out.deep_view() =~= await_ops_from(bv, 0));
    }
    out
}

/// `e` with every outermost suspend-point replaced by the result identifier
/// of its ordinal; `k` runs over the ordinals in collection order.
fn substitute_expr(e: Expr, k: &mut usize) -> (r: Expr)
    requires
        *old(k) + await_ops_in_expr(e@).len() <= usize::MAX,
    ensures
        r@ == subst_expr_v(e@, *old(k) as int),
        *final(k) == *old(k) + await_ops_in_expr(e@).len(),
    decreases e,
{
    match e {
        Expr::Await(b) => {
            let r = Expr::Var(Ident::ValueSlot(*k));
            let inner = count_awaits(&b);
            *k = *k + 1 + inner;
            r
        },
        Expr::Concat(a, b) => {
            let ra = substitute_expr(*a, k);
            let rb = substitute_expr(*b, k);
            Expr::Concat(Box::new(ra), Box::new(rb))
        },
        other => other,
    }
}

/// The rewriter. A function not declared asynchronous comes back untouched.
/// An asynchronous one comes back with its body restructured: first the
/// combinator definition for the `N` collected suspend-points, then one
/// binding per ordinal evaluating its operand to a not-yet-started task (in
/// collection order), then a single join over all the tasks, awaited at once
/// and destructured into the result binders in ordinal order, and then the
/// original statements with every suspend-point replaced by its ordinal's
/// result (bare `let <p> = <op>.await;` statements are dropped; `<p>` is
/// bound by the destructure instead).
pub fn rewrite(f: Fun) -> (r: Fun)
    ensures
        r@ == rewritten_fun(f@),
{
    if !f.is_async {
        return f;
    }
    let ops = collect_awaits(&f);
    let n = ops.len();
    let ghost bv = f@.body;
    let ghost opsv = ops.deep_view();
    let Fun { is_async: _, body: orig } = f;
    let mut out_body: Vec<Stmt> = Vec::new();
    out_body.push(Stmt::JoinDef(n));
    if n == 0 {
        let mut orig = orig;
        out_body.append(&mut orig);
        proof {
            assert(out_body.deep_view() =~= seq![StmtV::JoinDef(0)] + bv);
            assert(out_body.deep_view() == rewritten_body(bv));
        }
        return Fun { is_async: true, body: out_body };
    }
    // the task bindings, in collection order
    let mut ops = ops;
    let mut i: usize = 0;
    while ops.len() > 0
        invariant
            opsv.len() == n,
            n <= usize::MAX,
            i <= n,
            ops.deep_view() =~= opsv.skip(i as int),
            out_body.deep_view() =~= seq![StmtV::JoinDef(n as int)] + task_bindings(opsv).take(
                i as int,
            ),
        decreases ops@.len(),
    {
        proof {
            assert(ops.deep_view().len() == ops@.len());
        }
        let ghost dvpre = ops.deep_view();
        let ghost vpre = ops@;
        let op = ops.remove(0);
        proof {
            assert(ops@ =~= vpre.skip(1));
            assert(op@ == dvpre[0]);
            assert forall|t: int|
                0 <= t < ops@.len() implies #[trigger] ops.deep_view()[t] == dvpre[t + 1] by {
                assert(ops@[t] == vpre[t + 1]);
            }
            assert(ops.deep_view() =~= opsv.skip(i as int + 1));
            assert(op@ == opsv[i as int]);
        }
        let ghost dpre = out_body.deep_view();
        out_body.push(Stmt::Let(Ident::TaskSlot(i), op));
        proof {
            assert(out_body.deep_view() =~= dpre.push(
                StmtV::Let(IdentV::TaskSlot(i as int), opsv[i as int]),
            ));
            assert(task_bindings(opsv).take(i as int + 1) =~= task_bindings(opsv).take(
                i as int,
            ).push(StmtV::Let(IdentV::TaskSlot(i as int), opsv[i as int])));
            assert(out_body.deep_view() =~= seq![StmtV::JoinDef(n as int)] + task_bindings(
                opsv,
            ).take(i as int + 1));
        }
        i = i + 1;
    }
    proof {
        assert(i == n);
        assert(task_bindings(opsv).take(n as int) =~= task_bindings(opsv));
    }
    // the result binders and the residual statements
    let mut binders: Vec<Ident> = Vec::new();
    let mut residual: Vec<Stmt> = Vec::new();
    let mut k: usize = 0;
    let mut orig = orig;
    let mut j: usize = 0;
    let total_stmts = orig.len();
    let ghost blen = bv.len();
    proof {
        assert(orig.deep_view().len() == orig@.len());
        assert(blen == total_stmts as int);
        assert(bv.skip(0) =~= bv);
        assert(binders.deep_view() + binders_from(bv, 0, 0) =~= binders_from(bv, 0, 0));
        assert(residual.deep_view() + residual_from(bv, 0, 0) =~= residual_from(bv, 0, 0));
    }
    while orig.len() > 0
        invariant
            bv.len() == blen,
            blen <= usize::MAX,
            j <= blen,
            orig.deep_view() =~= bv.skip(j as int),
            opsv == await_ops_from(bv, 0),
            opsv.len() == n,
            n <= usize::MAX,
            k + await_ops_from(bv, j as int).len() == n,
            binders.deep_view() + binders_from(bv, j as int, k as int) =~= binders_from(bv, 0, 0),
            residual.deep_view() + residual_from(bv, j as int, k as int) =~= residual_from(
                bv,
                0,
                0,
            ),
        decreases orig@.len(),
    {
        proof {
            assert(orig.deep_view().len() == orig@.len());
        }
        let ghost dvpre = orig.deep_view();
        let ghost vpre = orig@;
        let st = orig.remove(0);
        proof {
            assert(orig@ =~= vpre.skip(1));
            assert(st@ == dvpre[0]);
            assert forall|t: int|
                0 <= t < orig@.len() implies #[trigger] orig.deep_view()[t] == dvpre[t + 1] by {
                assert(orig@[t] == vpre[t + 1]);
            }
            assert(orig.deep_view() =~= bv.skip(j as int + 1));
            assert(st@ == bv[j as int]);
            // the operands of this statement are a prefix of what is left
            assert(await_ops_from(bv, j as int) == await_ops_in_stmt(bv[j as int])
                + await_ops_from(bv, j as int + 1));
            assert(await_ops_from(bv, j as int).len() == await_ops_in_stmt(bv[j as int]).len()
                + await_ops_from(bv, j as int + 1).len());
        }
        let ghost m = await_ops_in_stmt(bv[j as int]).len() as int;
        let ghost bpre = binders.deep_view();
        let ghost rpre = residual.deep_view();
        let ghost k0 = k as int;
        match st {
            Stmt::Let(p, e) => {
                match e {
                    Expr::Await(opb) => {
                        let ghost pv = p@;
                        proof {
                            assert(bv[j as int] == StmtV::Let(pv, ExprV::Await(
                                Box::new(opb@),
                            )));
                            assert(await_ops_in_stmt(bv[j as int]) == seq![opb@]
                                + await_ops_in_expr(opb@));
                            assert(m == 1 + await_ops_in_expr(opb@).len());
                            assert(k0 + m <= n);
                        }
                        let inner = count_awaits(&opb);
                        binders.push(p);
                        proof {
                            assert(binders.deep_view() =~= bpre + seq![pv] + slot_results(
                                k0 + 1,
                                0,
                            ));
                        }
                        let mut t: usize = 0;
                        while t < inner
                            invariant
                                t <= inner,
                                k0 + 1 + inner <= usize::MAX,
                                k == k0,
                                k0 >= 0,
                                binders.deep_view() =~= bpre + seq![pv] + slot_results(
                                    k0 + 1,
                                    t as int,
                                ),
                            decreases inner - t,
                        {
                            let ghost bmid = binders.deep_view();
                            binders.push(Ident::ValueSlot(k + 1 + t));
                            proof {
                                assert(binders.deep_view() =~= bmid.push(
                                    IdentV::ValueSlot(k0 + 1 + t),
                                ));
                                assert(slot_results(k0 + 1, t as int + 1) =~= slot_results(
                                    k0 + 1,
                                    t as int,
                                ).push(IdentV::ValueSlot(k0 + 1 + t)));
                                assert(binders.deep_view() =~= bpre + seq![pv] + slot_results(
                                    k0 + 1,
                                    t as int + 1,
                                ));
                            }
                            t = t + 1;
                        }
                        k = k + 1 + inner;
                        proof {
                            assert(m == 1 + inner);
                            assert(binders.deep_view() =~= bpre + (seq![pv] + slot_results(
                                k0 + 1,
                                m - 1,
                            )));
                            assert(residual.deep_view() =~= rpre + Seq::<StmtV>::empty());
                        }
                    },
                    other_e => {
                        let ghost pv = p@;
                        let ghost ev = other_e@;
                        proof {
                            assert(bv[j as int] == StmtV::Let(pv, ev));
                            assert(await_ops_in_stmt(bv[j as int]) == await_ops_in_expr(ev));
                            assert(k0 + m <= n);
                        }
                        let inner = count_awaits(&other_e);
                        let mut t: usize = 0;
                        while t < inner
                            invariant
                                t <= inner,
                                k0 + inner <= usize::MAX,
                                k == k0,
                                k0 >= 0,
                                binders.deep_view() =~= bpre + slot_results(k0, t as int),
                            decreases inner - t,
                        {
                            let ghost bmid = binders.deep_view();
                            binders.push(Ident::ValueSlot(k + t));
                            proof {
                                assert(binders.deep_view() =~= bmid.push(
                                    IdentV::ValueSlot(k0 + t),
                                ));
                                assert(slot_results(k0, t as int + 1) =~= slot_results(
                                    k0,
                                    t as int,
                                ).push(IdentV::ValueSlot(k0 + t)));
                                assert(binders.deep_view() =~= bpre + slot_results(
                                    k0,
                                    t as int + 1,
                                ));
                            }
                            t = t + 1;
                        }
                        let se = substitute_expr(other_e, &mut k);
                        let ghost rmid = residual.deep_view();
                        residual.push(Stmt::Let(p, se));
                        proof {
                            assert(residual.deep_view() =~= rmid.push(
                                StmtV::Let(pv, subst_expr_v(ev, k0)),
                            ));
                        }
                    },
                }
            },
            Stmt::Expr(e) => {
                let ghost ev = e@;
                proof {
                    assert(bv[j as int] == StmtV::Expr(ev));
                    assert(await_ops_in_stmt(bv[j as int]) == await_ops_in_expr(ev));
                    assert(k0 + m <= n);
                }
                let inner = count_awaits(&e);
                let mut t: usize = 0;
                while t < inner
                    invariant
                        t <= inner,
                        k0 + inner <= usize::MAX,
                        k == k0,
                        k0 >= 0,
                        binders.deep_view() =~= bpre + slot_results(k0, t as int),
                    decreases inner - t,
                {
                    let ghost bmid = binders.deep_view();
                    binders.push(Ident::ValueSlot(k + t));
                    proof {
                        assert(binders.deep_view() =~= bmid.push(IdentV::ValueSlot(k0 + t)));
                        assert(slot_results(k0, t as int + 1) =~= slot_results(k0, t as int).push(
                            IdentV::ValueSlot(k0 + t),
                        ));
                        assert(binders.deep_view() =~= bpre + slot_results(k0, t as int + 1));
                    }
                    t = t + 1;
                }
                let se = substitute_expr(e, &mut k);
                let ghost rmid = residual.deep_view();
                residual.push(Stmt::Expr(se));
                proof {
                    assert(residual.deep_view() =~= rmid.push(
                        StmtV::Expr(subst_expr_v(ev, k0)),
                    ));
                }
            },
            other_st => {
                let ghost rmid = residual.deep_view();
                residual.push(other_st);
                proof {
                    assert(residual.deep_view() =~= rmid.push(bv[j as int]));
                    assert(binders.deep_view() =~= bpre + slot_results(k0, 0));
                }
            },
        }
        proof {
            assert(binders.deep_view() + binders_from(bv, j as int + 1, k0 + m)
                =~= binders_from(bv, 0, 0));
            assert(residual.deep_view() + residual_from(bv, j as int + 1, k0 + m)
                =~= residual_from(bv, 0, 0));
        }
        j = j + 1;
    }
    proof {
        assert(j == blen);
        assert(binders.deep_view() =~= binders_from(bv, 0, 0));
        assert(residual.deep_view() =~= residual_from(bv, 0, 0));
    }
    // the single join over all the tasks, in ordinal order
    let mut tnames: Vec<Ident> = Vec::new();
    let mut i: usize = 0;
    while i < n
        invariant
            i <= n,
            n <= usize::MAX,
            tnames.deep_view() =~= task_names(n as int).take(i as int),
        decreases n - i,
    {
        let ghost tpre = tnames.deep_view();
        tnames.push(Ident::TaskSlot(i));
        proof {
            assert(tnames.deep_view() =~= tpre.push(IdentV::TaskSlot(i as int)));
            assert(task_names(n as int).take(i as int + 1) =~= task_names(n as int).take(
                i as int,
            ).push(IdentV::TaskSlot(i as int)));
        }
        i = i + 1;
    }
    proof {
        assert(task_names(n as int).take(n as int) =~= task_names(n as int));
    }
    let ghost opre = out_body.deep_view();
    out_body.push(Stmt::JoinAwait { results: binders, tasks: tnames });
    let mut residual = residual;
    out_body.append(&mut residual);
    proof {
        assert(out_body.deep_view() =~= opre.push(
            StmtV::JoinAwait {
                results: binders_from(bv, 0, 0),
                tasks: task_names(n as int),
            },
        ) + residual_from(bv, 0, 0));
        assert(out_body.deep_view() =~= rewritten_body(bv));
    }
    Fun { is_async: true, body: out_body }
}

} // verus!
