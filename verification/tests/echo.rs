use par_async::echo::Echo;
use par_async::task::Violation;

#[test]
fn echo_returns_immediately_when_previously_told_to() {
    let mut e = Echo::new();
    e.do_return("foo");

    let mut t = e.echo("foo");

    assert_eq!(t.poll_once(&mut e), Some("foo".to_string()));
}

#[test]
fn echo_pending_while_not_returning() {
    let mut e = Echo::new();

    let mut t = e.echo("foo");

    assert_eq!(t.poll_once(&mut e), None);
}

#[test]
fn echo_ready_when_return_after_creation() {
    let mut e = Echo::new();

    let mut t = e.echo("foo");
    e.do_return("foo");

    assert_eq!(t.poll_once(&mut e), Some("foo".to_string()));
}

#[test]
fn echo_only_returns_from_first_poll_of_same_value() {
    let mut e = Echo::new();
    e.do_return("foo");

    let mut t = e.echo("foo");
    assert_eq!(t.poll_once(&mut e), Some("foo".to_string()));

    let mut t = e.echo("foo");
    assert_eq!(t.poll_once(&mut e), None);
}

// Polling a resolved task violates the polling protocol. The checked entry
// point must reject the violation explicitly rather than silently answer.
#[test]
fn echo_polling_same_one_after_complete_is_rejected() {
    let mut e = Echo::new();
    e.do_return("foo");

    let mut t = e.echo("foo");
    assert_eq!(t.poll_checked(&mut e), Ok(Some("foo".to_string())));

    assert_eq!(t.poll_checked(&mut e), Err(Violation::PolledAfterCompletion));
}

#[test]
fn echo_records_one_poll_per_step() {
    let mut e = Echo::new();

    let mut t = e.echo("foo");
    assert_eq!(e.polls("foo"), 0);
    assert_eq!(t.poll_once(&mut e), None);
    assert_eq!(e.polls("foo"), 1);
    assert_eq!(t.poll_once(&mut e), None);
    assert_eq!(e.polls("foo"), 2);
    assert_eq!(e.polls("bar"), 0);
}

#[test]
fn echo_outstanding_tracks_requests_minus_returns() {
    let mut e = Echo::new();
    let _foo = e.echo("foo");
    let _bar = e.echo("bar");

    let out = e.outstanding_requests();
    assert_eq!(out.len(), 2);
    assert!(out.iter().any(|s| s == "foo"));
    assert!(out.iter().any(|s| s == "bar"));

    e.do_return("foo");
    let out = e.outstanding_requests();
    assert_eq!(out.len(), 1);
    assert!(out.iter().any(|s| s == "bar"));
}
