use par_async::ast::{fun_eq, Expr, Fun, Ident, Stmt};
use par_async::echo::Echo;
use par_async::eval::{eval_fun, Value};
use par_async::run::{Runner, Step};
use par_async::transform::rewrite;

fn named(s: &str) -> Ident {
    Ident::Named(s.to_string())
}

fn request(key: &str) -> Expr {
    Expr::Request(key.to_string())
}

fn await_request(key: &str) -> Expr {
    Expr::Await(Box::new(request(key)))
}

fn concat(a: Expr, b: Expr) -> Expr {
    Expr::Concat(Box::new(a), Box::new(b))
}

fn var(s: &str) -> Expr {
    Expr::Var(named(s))
}

fn assert_outstanding(e: &Echo, strs: &[&str]) {
    let out = e.outstanding_requests();
    assert_eq!(out.len(), strs.len());
    for s in strs {
        assert!(out.iter().any(|o| o == s));
        assert!(e.polls(s) > 0);
    }
}

#[test]
fn it_does_not_affect_non_async_functions() {
    let foo = || Fun { is_async: false, body: vec![Stmt::Expr(Expr::IntLit(42))] };

    let transformed = rewrite(foo());

    assert!(fun_eq(&transformed, &foo()));
    assert_eq!(eval_fun(&transformed), Ok(Value::Int(42)));
}

#[test]
fn it_immediately_returns_immediate_async() {
    let foo = Fun { is_async: true, body: vec![Stmt::Expr(Expr::IntLit(42))] };

    let transformed = rewrite(foo);

    let mut e = Echo::new();
    let mut p = Runner::start(&transformed, &mut e).unwrap();
    assert_eq!(p.poll(&mut e), Ok(Step::Ready(Value::Int(42))));
}

#[test]
fn it_awaits_a_future() {
    let foo = Fun { is_async: true, body: vec![Stmt::Expr(await_request("foo"))] };

    let transformed = rewrite(foo);

    let mut e = Echo::new();
    e.do_return("foo");

    let mut p = Runner::start(&transformed, &mut e).unwrap();
    assert_eq!(p.poll(&mut e), Ok(Step::Ready(Value::Str("foo".to_string()))));
}

#[test]
fn it_parallelizes_two_futures() {
    let foo = Fun {
        is_async: true,
        body: vec![
            Stmt::Let(named("foo"), await_request("foo")),
            Stmt::Let(named("bar"), await_request("bar")),
            Stmt::Expr(concat(var("foo"), var("bar"))),
        ],
    };

    let transformed = rewrite(foo);

    let mut e = Echo::new();
    let mut p = Runner::start(&transformed, &mut e).unwrap();

    assert_eq!(p.poll(&mut e), Ok(Step::Pending));
    assert_outstanding(&e, &["foo", "bar"]);

    e.do_return("foo");
    e.do_return("bar");

    assert_eq!(p.poll(&mut e), Ok(Step::Ready(Value::Str("foobar".to_string()))));
}

#[test]
fn it_parallelizes_three_futures() {
    let foo = Fun {
        is_async: true,
        body: vec![
            Stmt::Let(named("foo"), await_request("foo")),
            Stmt::Let(named("bar"), await_request("bar")),
            Stmt::Let(named("baz"), await_request("baz")),
            Stmt::Expr(concat(concat(var("foo"), var("bar")), var("baz"))),
        ],
    };

    let transformed = rewrite(foo);

    let mut e = Echo::new();
    let mut p = Runner::start(&transformed, &mut e).unwrap();

    assert_eq!(p.poll(&mut e), Ok(Step::Pending));
    assert_outstanding(&e, &["foo", "bar", "baz"]);

    e.do_return("foo");
    e.do_return("bar");
    e.do_return("baz");

    assert_eq!(p.poll(&mut e), Ok(Step::Ready(Value::Str("foobarbaz".to_string()))));
}

#[test]
fn it_allows_expressions_of_the_await() {
    let foo = Fun {
        is_async: true,
        body: vec![
            Stmt::Let(named("foo"), concat(await_request("foo"), Expr::StrLit("more".to_string()))),
            Stmt::Let(named("bar"), concat(await_request("bar"), Expr::StrLit("more".to_string()))),
            Stmt::Expr(concat(var("foo"), var("bar"))),
        ],
    };

    let transformed = rewrite(foo);

    let mut e = Echo::new();
    let mut p = Runner::start(&transformed, &mut e).unwrap();

    assert_eq!(p.poll(&mut e), Ok(Step::Pending));
    assert_outstanding(&e, &["foo", "bar"]);

    e.do_return("foo");
    e.do_return("bar");

    assert_eq!(p.poll(&mut e), Ok(Step::Ready(Value::Str("foomorebarmore".to_string()))));
}

#[test]
fn par_async_echo_returns_immediately_when_previously_told_to() {
    let mut e = Echo::new();
    e.do_return("foo");

    let mut t = e.echo("foo");

    assert_eq!(t.poll_once(&mut e), Some("foo".to_string()));
}

#[test]
fn par_async_echo_pending_while_not_returning() {
    let mut e = Echo::new();

    let mut t = e.echo("foo");

    assert_eq!(t.poll_once(&mut e), None);
}

#[test]
fn par_async_echo_ready_when_return_after_creation() {
    let mut e = Echo::new();

    let mut t = e.echo("foo");
    e.do_return("foo");

    assert_eq!(t.poll_once(&mut e), Some("foo".to_string()));
}

#[test]
fn par_async_echo_only_returns_from_first_poll_of_same_value() {
    let mut e = Echo::new();
    e.do_return("foo");

    let mut t = e.echo("foo");
    assert_eq!(t.poll_once(&mut e), Some("foo".to_string()));

    let mut t = e.echo("foo");
    assert_eq!(t.poll_once(&mut e), None);
}
