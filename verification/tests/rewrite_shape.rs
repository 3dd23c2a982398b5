use par_async::ast::{body_eq, fun_eq, Expr, Fun, Ident, Stmt};
use par_async::eval::{eval_fun, EvalErr, Value};
use par_async::transform::rewrite;

fn named(s: &str) -> Ident {
    Ident::Named(s.to_string())
}

fn request(key: &str) -> Expr {
    Expr::Request(key.to_string())
}

fn await_request(key: &str) -> Expr {
    Expr::Await(Box::new(request(key)))
}

fn concat(a: Expr, b: Expr) -> Expr {
    Expr::Concat(Box::new(a), Box::new(b))
}

fn var(s: &str) -> Expr {
    Expr::Var(named(s))
}

#[test]
fn rewrite_orders_bindings_join_and_remainder() {
    let f = Fun {
        is_async: true,
        body: vec![
            Stmt::Let(named("foo"), await_request("foo")),
            Stmt::Let(named("bar"), await_request("bar")),
            Stmt::Expr(concat(var("foo"), var("bar"))),
        ],
    };

    let transformed = rewrite(f);

    // one binding per suspend-point in collection order, one join over both,
    // destructured into the original `let` patterns, then the remainder with
    // the bare-await `let`s removed
    let expected = vec![
        Stmt::JoinDef(2),
        Stmt::Let(Ident::TaskSlot(0), request("foo")),
        Stmt::Let(Ident::TaskSlot(1), request("bar")),
        Stmt::JoinAwait {
            results: vec![named("foo"), named("bar")],
            tasks: vec![Ident::TaskSlot(0), Ident::TaskSlot(1)],
        },
        Stmt::Expr(concat(var("foo"), var("bar"))),
    ];

    assert!(transformed.is_async);
    assert!(body_eq(&transformed.body, &expected));
}

#[test]
fn rewrite_tags_identical_awaits_positionally() {
    // two textually identical awaits get distinct ordinals
    let f = Fun {
        is_async: true,
        body: vec![Stmt::Expr(concat(await_request("foo"), await_request("foo")))],
    };

    let transformed = rewrite(f);

    let expected = vec![
        Stmt::JoinDef(2),
        Stmt::Let(Ident::TaskSlot(0), request("foo")),
        Stmt::Let(Ident::TaskSlot(1), request("foo")),
        Stmt::JoinAwait {
            results: vec![Ident::ValueSlot(0), Ident::ValueSlot(1)],
            tasks: vec![Ident::TaskSlot(0), Ident::TaskSlot(1)],
        },
        Stmt::Expr(concat(Expr::Var(Ident::ValueSlot(0)), Expr::Var(Ident::ValueSlot(1)))),
    ];

    assert!(body_eq(&transformed.body, &expected));
}

#[test]
fn rewrite_of_no_awaits_only_adds_the_definition() {
    let f = Fun { is_async: true, body: vec![Stmt::Expr(Expr::IntLit(42))] };

    let transformed = rewrite(f);

    let expected = vec![Stmt::JoinDef(0), Stmt::Expr(Expr::IntLit(42))];
    assert!(body_eq(&transformed.body, &expected));
}

#[test]
fn rewrite_keeps_non_async_functions_identical() {
    let foo = || Fun {
        is_async: false,
        body: vec![
            Stmt::Let(named("foo"), await_request("foo")),
            Stmt::Expr(var("foo")),
        ],
    };

    assert!(fun_eq(&rewrite(foo()), &foo()));
}

#[test]
fn eval_concatenates_string_literals() {
    let f = Fun {
        is_async: false,
        body: vec![Stmt::Expr(concat(
            Expr::StrLit("a".to_string()),
            Expr::StrLit("b".to_string()),
        ))],
    };
    assert_eq!(eval_fun(&f), Ok(Value::Str("ab".to_string())));
}

#[test]
fn eval_of_empty_body_is_unit() {
    let f = Fun { is_async: false, body: Vec::new() };
    assert_eq!(eval_fun(&f), Ok(Value::Unit));
}

#[test]
fn eval_refuses_suspend_points() {
    let f = Fun { is_async: false, body: vec![Stmt::Expr(await_request("foo"))] };
    assert_eq!(eval_fun(&f), Err(EvalErr::Suspend));
}
