//! Evaluation of suspend-free code: the body of a function with no
//! suspend-point, and the residual statements of a rewritten body once the
//! join has delivered every result.

use vstd::prelude::*;
use vstd::string::StringExecFns;
use crate::ast::{dup_ident, ident_eq, Expr, ExprV, Fun, Ident, IdentV, Stmt, StmtV};

verus! {

/// A run-time value of the modelled language.
#[derive(Debug, PartialEq, Eq)]
pub enum Value {
    Int(u64),
    Str(String),
    Unit,
}

/// Mathematical view of a value.
pub enum ValueV {
    Int(u64),
    Str(Seq<char>),
    Unit,
}

impl View for Value {
    type V = ValueV;

    open spec fn view(&self) -> ValueV {
        match self {
            Value::Int(n) => ValueV::Int(*n),
            Value::Str(s) => ValueV::Str(s@),
            Value::Unit => ValueV::Unit,
        }
    }
}

impl DeepView for Value {
    type V = ValueV;

    open spec fn deep_view(&self) -> ValueV {
        self.view()
    }
}

/// Why evaluation failed.
#[derive(Clone, Copy, Debug, PartialEq, Eq, Structural)]
pub enum EvalErr {
    /// A referenced identifier has no binding.
    UnboundName,
    /// A concatenation operand is not a string.
    NotAString,
    /// The code holds a suspend-point (or the join itself) and cannot be
    /// evaluated without driving tasks.
    Suspend,
}

/// The value bound to `id`, with later bindings shadowing earlier ones.
pub open spec fn lookup_v(env: Seq<(IdentV, ValueV)>, id: IdentV) -> Option<ValueV>
    decreases env.len(),
{
    if env.len() == 0 {
        None
    } else if env.last().0 == id {
        Some(env.last().1)
    } else {
        lookup_v(env.drop_last(), id)
    }
}

/// What a suspend-free expression evaluates to under an environment.
pub open spec fn eval_expr_v(e: ExprV, env: Seq<(IdentV, ValueV)>) -> Result<ValueV, EvalErr>
    decreases e,
{
    match e {
        ExprV::IntLit(n) => Ok(ValueV::Int(n)),
        ExprV::StrLit(s) => Ok(ValueV::Str(s)),
        ExprV::Var(id) => match lookup_v(env, id) {
            Some(v) => Ok(v),
            None => Err(EvalErr::UnboundName),
        },
        ExprV::Request(_) => Err(EvalErr::Suspend),
        ExprV::Await(_) => Err(EvalErr::Suspend),
        ExprV::Concat(a, b) => match eval_expr_v(*a, env) {
            Ok(ValueV::Str(x)) => match eval_expr_v(*b, env) {
                Ok(ValueV::Str(y)) => Ok(ValueV::Str(x + y)),
                Ok(_) => Err(EvalErr::NotAString),
                Err(er) => Err(er),
            },
            Ok(_) => Err(EvalErr::NotAString),
            Err(er) => Err(er),
        },
    }
}

/// What the statements from index `i` on evaluate to: `let` extends the
/// environment, a trailing expression is the result, and a body that ends
/// without one yields the unit value.
pub open spec fn eval_body_from(b: Seq<StmtV>, i: int, env: Seq<(IdentV, ValueV)>) -> Result<
    ValueV,
    EvalErr,
>
    decreases b.len() - i,
{
    if 0 <= i < b.len() {
        match b[i] {
            StmtV::Let(p, e) => match eval_expr_v(e, env) {
                Ok(v) => eval_body_from(b, i + 1, env.push((p, v))),
                Err(er) => Err(er),
            },
            StmtV::Expr(e) => match eval_expr_v(e, env) {
                Ok(v) => if i == b.len() - 1 {
                    Ok(v)
                } else {
                    eval_body_from(b, i + 1, env)
                },
                Err(er) => Err(er),
            },
            StmtV::JoinDef(_) => eval_body_from(b, i + 1, env),
            StmtV::JoinAwait { .. } => Err(EvalErr::Suspend),
        }
    } else {
        Ok(ValueV::Unit)
    }
}

/// The view of an evaluation outcome.
pub open spec fn outcome_view(r: Result<Value, EvalErr>) -> Result<ValueV, EvalErr> {
    match r {
        Ok(v) => Ok(v@),
        Err(er) => Err(er),
    }
}

/// A deep copy of a value, equal under the view.
pub fn dup_value(v: &Value) -> (r: Value)
    ensures
        r@ == v@,
{
    match v {
        Value::Int(n) => Value::Int(*n),
        Value::Str(s) => Value::Str(s.clone()),
        Value::Unit => Value::Unit,
    }
}

/// The value bound to `id` in the environment, the latest binding first.
fn lookup(env: &Vec<(Ident, Value)>, id: &Ident) -> (r: Option<Value>)
    ensures
        match r {
            Some(v) => lookup_v(env.deep_view(), id@) == Some(v@),
            None => lookup_v(env.deep_view(), id@) is None,
        },
{
    let mut i: usize = env.len();
    proof {
        assert(env.deep_view().take(i as int) =~= env.deep_view());
    }
    while i > 0
        invariant
            i <= env@.len(),
            lookup_v(env.deep_view(), id@) == lookup_v(env.deep_view().take(i as int), id@),
        decreases i,
    {
        i = i - 1;
        proof {
            assert(env.deep_view().take(i as int + 1).last() == env.deep_view()[i as int]);
            assert(env.deep_view().take(i as int + 1).drop_last() =~= env.deep_view().take(
                i as int,
            ));
            assert(env.deep_view()[i as int] == (env@[i as int].0@, env@[i as int].1@));
        }
        if ident_eq(&env[i].0, id) {
            return Some(dup_value(&env[i].1));
        }
    }
    proof {
        assert(env.deep_view().take(0) =~= Seq::<(IdentV, ValueV)>::empty());
    }
    None
}

/// Evaluate a suspend-free expression under an environment.
pub fn eval_expr(e: &Expr, env: &Vec<(Ident, Value)>) -> (r: Result<Value, EvalErr>)
    ensures
        outcome_view(r) == eval_expr_v(e@, env.deep_view()),
    decreases *e,
{
    match e {
        Expr::IntLit(n) => Ok(Value::Int(*n)),
        Expr::StrLit(s) => Ok(Value::Str(s.clone())),
        Expr::Var(id) => match lookup(env, id) {
            Some(v) => Ok(v),
            None => Err(EvalErr::UnboundName),
        },
        Expr::Request(_) => Err(EvalErr::Suspend),
        Expr::Await(_) => Err(EvalErr::Suspend),
        Expr::Concat(a, b) => {
            let ra = eval_expr(a, env)?;
            match ra {
                Value::Str(x) => {
                    let rb = eval_expr(b, env)?;
                    match rb {
                        Value::Str(y) => Ok(Value::Str(x.concat(y.as_str()))),
                        _ => Err(EvalErr::NotAString),
                    }
                },
                _ => Err(EvalErr::NotAString),
            }
        },
    }
}

/// Evaluate the statements of `b` from index `i` on, under `env`.
pub fn eval_stmts(b: &Vec<Stmt>, i: usize, env: Vec<(Ident, Value)>) -> (r: Result<Value, EvalErr>)
    requires
        i <= b@.len(),
    ensures
        outcome_view(r) == eval_body_from(b.deep_view(), i as int, env.deep_view()),
    decreases b@.len() - i,
{
    if i == b.len() {
        return Ok(Value::Unit);
    }
    let ghost bdv = b.deep_view();
    proof {
        assert(bdv[i as int] == b@[i as int]@);
    }
    match &b[i] {
        Stmt::Let(p, e) => {
            let v = eval_expr(e, &env)?;
            let mut env = env;
            let ghost edv = env.deep_view();
            env.push((dup_ident(p), v));
            proof {
                assert(env.deep_view() =~= edv.push((p@, eval_expr_v(e@, edv)->Ok_0)));
            }
            eval_stmts(b, i + 1, env)
        },
        Stmt::Expr(e) => {
            let v = eval_expr(e, &env)?;
            if i == b.len() - 1 {
                Ok(v)
            } else {
                eval_stmts(b, i + 1, env)
            }
        },
        Stmt::JoinDef(_) => eval_stmts(b, i + 1, env),
        Stmt::JoinAwait { .. } => Err(EvalErr::Suspend),
    }
}

/// Evaluate a suspend-free body from an empty environment: what a function
/// that never suspends returns when called.
pub fn eval_fun(f: &Fun) -> (r: Result<Value, EvalErr>)
    ensures
        outcome_view(r) == eval_body_from(f@.body, 0, Seq::empty()),
{
    let env: Vec<(Ident, Value)> = Vec::new();
    proof {
        assert(env.deep_view() =~= Seq::<(IdentV, ValueV)>::empty());
    }
    eval_stmts(&f.body, 0, env)
}

} // verus!
