use par_async::ast::{Expr, Fun, Ident, Stmt};
use par_async::echo::{Echo, EchoTask};
use par_async::eval::{EvalErr, Value};
use par_async::join::JoinCombinator;
use par_async::run::{RunError, Runner, Step};
use par_async::task::Violation;
use par_async::transform::rewrite;

fn named(s: &str) -> Ident {
    Ident::Named(s.to_string())
}

fn request(key: &str) -> Expr {
    Expr::Request(key.to_string())
}

fn await_request(key: &str) -> Expr {
    Expr::Await(Box::new(request(key)))
}

#[test]
fn join_of_zero_tasks_completes_on_first_poll() {
    let tasks: Vec<EchoTask> = Vec::new();
    let mut j = JoinCombinator::join(tasks);
    let mut e = Echo::new();
    assert_eq!(j.poll(&mut e), Some(Vec::new()));
}

#[test]
fn join_completes_only_once_all_tasks_have() {
    let mut e = Echo::new();
    let foo = e.echo("foo");
    let bar = e.echo("bar");
    let mut j = JoinCombinator::join(vec![foo, bar]);

    assert_eq!(j.poll(&mut e), None);

    e.do_return("foo");
    assert_eq!(j.poll(&mut e), None);

    e.do_return("bar");
    assert_eq!(j.poll(&mut e), Some(vec!["foo".to_string(), "bar".to_string()]));
}

#[test]
fn join_tuple_order_ignores_completion_order() {
    let mut e = Echo::new();
    let foo = e.echo("foo");
    let bar = e.echo("bar");
    let mut j = JoinCombinator::join(vec![foo, bar]);

    // the second task completes first; the results still come out in slot order
    e.do_return("bar");
    assert_eq!(j.poll(&mut e), None);

    e.do_return("foo");
    assert_eq!(j.poll(&mut e), Some(vec!["foo".to_string(), "bar".to_string()]));
}

#[test]
fn join_polls_each_pending_task_exactly_once_per_step() {
    let mut e = Echo::new();
    let foo = e.echo("foo");
    let bar = e.echo("bar");
    let mut j = JoinCombinator::join(vec![foo, bar]);

    e.do_return("bar");
    assert_eq!(j.poll(&mut e), None);
    assert_eq!(e.polls("foo"), 1);
    assert_eq!(e.polls("bar"), 1);

    // the completed task is never polled again
    assert_eq!(j.poll(&mut e), None);
    assert_eq!(e.polls("foo"), 2);
    assert_eq!(e.polls("bar"), 1);

    e.do_return("foo");
    assert_eq!(j.poll(&mut e), Some(vec!["foo".to_string(), "bar".to_string()]));
    assert_eq!(e.polls("foo"), 3);
    assert_eq!(e.polls("bar"), 1);
}

#[test]
fn join_poll_after_completion_is_rejected() {
    let mut e = Echo::new();
    e.do_return("foo");
    let foo = e.echo("foo");
    let mut j = JoinCombinator::join(vec![foo]);

    assert_eq!(j.poll_checked(&mut e), Ok(Some(vec!["foo".to_string()])));

    assert_eq!(j.poll_checked(&mut e), Err(Violation::PolledAfterCompletion));
}

#[test]
fn runner_rejects_non_async_functions() {
    let f = Fun { is_async: false, body: vec![Stmt::Expr(Expr::IntLit(42))] };
    let mut e = Echo::new();
    match Runner::start(&f, &mut e) {
        Err(er) => assert_eq!(er, RunError::NotJoinedForm),
        Ok(_) => panic!("a non-asynchronous function was accepted"),
    }
}

#[test]
fn runner_rejects_unrewritten_bodies() {
    let f = Fun { is_async: true, body: vec![Stmt::Expr(await_request("foo"))] };
    let mut e = Echo::new();
    match Runner::start(&f, &mut e) {
        Err(er) => assert_eq!(er, RunError::NotJoinedForm),
        Ok(_) => panic!("an unrewritten body was accepted"),
    }
}

#[test]
fn runner_rejects_non_request_operands() {
    let f = Fun {
        is_async: true,
        body: vec![
            Stmt::JoinDef(1),
            Stmt::Let(Ident::TaskSlot(0), Expr::IntLit(7)),
            Stmt::JoinAwait {
                results: vec![Ident::ValueSlot(0)],
                tasks: vec![Ident::TaskSlot(0)],
            },
            Stmt::Expr(Expr::Var(Ident::ValueSlot(0))),
        ],
    };
    let mut e = Echo::new();
    match Runner::start(&f, &mut e) {
        Err(er) => assert_eq!(er, RunError::UnsupportedOperand),
        Ok(_) => panic!("a non-request operand was accepted"),
    }
}

#[test]
fn runner_reports_unbound_names_in_the_remainder() {
    let f = Fun { is_async: true, body: vec![Stmt::Expr(Expr::Var(named("nope")))] };
    let transformed = rewrite(f);
    let mut e = Echo::new();
    let mut p = Runner::start(&transformed, &mut e).unwrap();
    assert_eq!(p.poll(&mut e), Err(RunError::Eval(EvalErr::UnboundName)));
}

#[test]
fn runner_reports_concatenation_of_non_strings() {
    let f = Fun {
        is_async: true,
        body: vec![
            Stmt::Expr(Expr::Concat(
                Box::new(Expr::IntLit(1)),
                Box::new(Expr::IntLit(2)),
            )),
        ],
    };
    let transformed = rewrite(f);
    let mut e = Echo::new();
    let mut p = Runner::start(&transformed, &mut e).unwrap();
    assert_eq!(p.poll(&mut e), Err(RunError::Eval(EvalErr::NotAString)));
}

#[test]
fn runner_binds_let_patterns_through_the_join() {
    // a value bound by a removed `let` is visible in the remainder under its
    // original name
    let f = Fun {
        is_async: true,
        body: vec![
            Stmt::Let(named("word"), await_request("foo")),
            Stmt::Expr(Expr::Var(named("word"))),
        ],
    };
    let transformed = rewrite(f);
    let mut e = Echo::new();
    e.do_return("foo");
    let mut p = Runner::start(&transformed, &mut e).unwrap();
    assert_eq!(p.poll(&mut e), Ok(Step::Ready(Value::Str("foo".to_string()))));
}

#[test]
fn identical_awaits_are_driven_as_separate_tasks() {
    // two textually identical suspend-points get their own ordinals and are
    // each driven to completion
    let f = Fun {
        is_async: true,
        body: vec![Stmt::Expr(Expr::Concat(
            Box::new(await_request("foo")),
            Box::new(await_request("foo")),
        ))],
    };
    let transformed = rewrite(f);
    let mut e = Echo::new();
    let mut p = Runner::start(&transformed, &mut e).unwrap();

    e.do_return("foo");
    // only the first task can consume the single fulfilled key
    assert_eq!(p.poll(&mut e), Ok(Step::Pending));

    e.do_return("foo");
    assert_eq!(p.poll(&mut e), Ok(Step::Ready(Value::Str("foofoo".to_string()))));
}
