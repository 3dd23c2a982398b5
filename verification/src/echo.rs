//! An echo service double: a registry of requested and fulfilled keys, and a
//! task per request that completes with its key once the key is fulfilled.
//! It stands in for real asynchronous work when the join combinator and the
//! rewritten bodies are exercised.

use vstd::prelude::*;
use crate::task::{Task, Violation};

verus! {

/// Whether some string in `v` reads `k`.
pub open spec fn has_key(v: Seq<String>, k: Seq<char>) -> bool {
    exists|i: int| 0 <= i < v.len() && v[i]@ == k
}

/// Whether the strings in `v` are pairwise distinct.
pub open spec fn distinct_keys(v: Seq<String>) -> bool {
    forall|i: int, j: int| 0 <= i < j < v.len() ==> v[i]@ != v[j]@
}

/// The count recorded for `k` in an association list, zero when absent.
pub open spec fn count_for(s: Seq<(String, u64)>, k: Seq<char>) -> u64
    decreases s.len(),
{
    if s.len() == 0 {
        0u64
    } else if s[0].0@ == k {
        s[0].1
    } else {
        count_for(s.drop_first(), k)
    }
}

proof fn lemma_has_key_push(v: Seq<String>, x: String)
    ensures
        forall|k: Seq<char>| #[trigger] has_key(v.push(x), k) <==> (has_key(v, k) || k == x@),
{
    assert forall|k: Seq<char>| #[trigger] has_key(v.push(x), k) implies (has_key(v, k) || k
        == x@) by {
        let w = choose|w: int| 0 <= w < v.push(x).len() && v.push(x)[w]@ == k;
        if w < v.len() {
            assert(v[w]@ == k);
        }
    }
    assert forall|k: Seq<char>| (has_key(v, k) || k == x@) implies #[trigger] has_key(
        v.push(x),
        k,
    ) by {
        if has_key(v, k) {
            let w = choose|w: int| 0 <= w < v.len() && v[w]@ == k;
            assert(v.push(x)[w]@ == k);
        } else {
            assert(v.push(x)[v.len() as int]@ == k);
        }
    }
}

/// The registry shared by all echo tasks: which keys have an outstanding
/// request, which keys have been told to return, and how often each key's
/// task has been polled.
pub struct Echo {
    returns: Vec<String>,
    requests: Vec<String>,
    polls: Vec<(String, u64)>,
}

/// One issued echo request: completes with its own key once the registry has
/// been told to return that key.
pub struct EchoTask {
    input: String,
    finished: bool,
    count: Ghost<nat>,
}

/// The transition one poll of an echo task makes on the task and on the
/// registry it is polled against: the poll is recorded for the task's key
/// (holding at the counter's ceiling), and the task completes exactly when
/// the registry marks the key as fulfilled at that moment, consuming the
/// mark; nothing else about the registry changes.
pub open spec fn echo_poll_step(t0: EchoTask, reg0: Echo, t1: EchoTask, reg1: Echo) -> bool {
    &&& t1.key() == t0.key()
    &&& t1.output() == t0.output()
    &&& t1.polls() == t0.polls() + 1
    &&& (t1.done() <==> reg0.returned(t0.key()))
    &&& (t1.done() ==> !reg1.returned(t0.key()))
    &&& (!t1.done() ==> (forall|k: Seq<char>|
        (#[trigger] reg1.returned(k) <==> reg0.returned(k))))
    &&& (forall|k: Seq<char>|
        k != t0.key() ==> (#[trigger] reg1.returned(k) <==> reg0.returned(k)))
    &&& (forall|k: Seq<char>| (#[trigger] reg1.requested(k) <==> reg0.requested(k)))
    &&& (reg0.poll_count(t0.key()) < u64::MAX ==> reg1.poll_count(t0.key()) == reg0.poll_count(
        t0.key(),
    ) + 1)
    &&& (reg0.poll_count(t0.key()) == u64::MAX ==> reg1.poll_count(t0.key()) == u64::MAX)
    &&& (forall|k: Seq<char>|
        k != t0.key() ==> #[trigger] reg1.poll_count(k) == reg0.poll_count(k))
}

impl Echo {
    /// Whether `k` is currently marked as fulfilled.
    pub closed spec fn returned(&self, k: Seq<char>) -> bool {
        has_key(self.returns@, k)
    }

    /// Whether `k` has a request issued and not yet consumed by a completion.
    pub closed spec fn requested(&self, k: Seq<char>) -> bool {
        has_key(self.requests@, k)
    }

    /// How often a task for `k` has been polled against this registry.
    pub closed spec fn poll_count(&self, k: Seq<char>) -> u64 {
        count_for(self.polls@, k)
    }

    /// Each bookkeeping list holds a key at most once.
    pub closed spec fn wf(&self) -> bool {
        &&& distinct_keys(self.returns@)
        &&& distinct_keys(self.requests@)
        &&& (forall|i: int, j: int|
            0 <= i < j < self.polls@.len() ==> self.polls@[i].0@ != self.polls@[j].0@)
    }

    /// A fresh registry: nothing requested, nothing fulfilled, nothing polled.
    pub fn new() -> (e: Echo)
        ensures
            e.wf(),
            forall|k: Seq<char>| !#[trigger] e.returned(k),
            forall|k: Seq<char>| !#[trigger] e.requested(k),
            forall|k: Seq<char>| #[trigger] e.poll_count(k) == 0,
    {
        Echo { returns: Vec::new(), requests: Vec::new(), polls: Vec::new() }
    }

    /// Mark `s` as fulfilled: the next poll of a task for `s` completes. The
    /// key must not already be marked, and an outstanding request for it is
    /// considered answered.
    pub fn do_return(&mut self, s: &str)
        requires
            old(self).wf(),
            !old(self).returned(s@),
        ensures
            final(self).wf(),
            final(self).returned(s@),
            forall|k: Seq<char>|
                k != s@ ==> (#[trigger] final(self).returned(k) <==> old(self).returned(k)),
            !final(self).requested(s@),
            forall|k: Seq<char>|
                k != s@ ==> (#[trigger] final(self).requested(k) <==> old(self).requested(k)),
            forall|k: Seq<char>| #[trigger] final(self).poll_count(k) == old(self).poll_count(k),
    {
        let owned = s.to_owned();
        let ghost before = self.returns@;
        self.returns.push(owned);
        proof {
            lemma_has_key_push(before, self.returns@.last());
            assert forall|i: int, j: int|
                0 <= i < j < self.returns@.len() implies self.returns@[i]@
                != self.returns@[j]@ by {
                if j == self.returns@.len() - 1 {
                    assert(before[i]@ != s@);
                }
            }
        }
        remove_key(&mut self.requests, s);
    }

    /// Issue a request for `s`: records the request (if not already
    /// outstanding) and hands back the not-yet-started task that will echo
    /// the key.
    pub fn echo(&mut self, s: &str) -> (t: EchoTask)
        requires
            old(self).wf(),
        ensures
            final(self).wf(),
            t.key() == s@,
            t.output()@ == s@,
            !t.done(),
            t.polls() == 0,
            final(self).requested(s@),
            forall|k: Seq<char>|
                k != s@ ==> (#[trigger] final(self).requested(k) <==> old(self).requested(k)),
            forall|k: Seq<char>|
                (#[trigger] final(self).returned(k) <==> old(self).returned(k)),
            forall|k: Seq<char>| #[trigger] final(self).poll_count(k) == old(self).poll_count(k),
    {
        let owned = s.to_owned();
        if !vec_has_key(&self.requests, &owned) {
            let ghost before = self.requests@;
            self.requests.push(owned.clone());
            proof {
                lemma_has_key_push(before, self.requests@.last());
                assert forall|i: int, j: int|
                    0 <= i < j < self.requests@.len() implies self.requests@[i]@
                    != self.requests@[j]@ by {
                    if j == self.requests@.len() - 1 {
                        assert(before[i]@ != s@);
                    }
                }
            }
        }
        EchoTask { input: owned, finished: false, count: Ghost(0nat) }
    }

    /// The keys requested and not yet fulfilled, each exactly once.
    pub fn outstanding_requests(&self) -> (out: Vec<String>)
        requires
            self.wf(),
        ensures
            distinct_keys(out@),
            forall|k: Seq<char>|
                #[trigger] has_key(out@, k) <==> (self.requested(k) && !self.returned(k)),
    {
        let mut out: Vec<String> = Vec::new();
        let n = self.requests.len();
        let mut i: usize = 0;
        while i < n
            invariant
                self.wf(),
                n == self.requests@.len(),
                i <= n,
                forall|k: Seq<char>|
                    #[trigger] has_key(out@, k) <==> (has_key(self.requests@.take(i as int), k)
                        && !self.returned(k)),
                distinct_keys(out@),
            decreases n - i,
        {
            let key = &self.requests[i];
            let ghost out_before = out@;
            let pending = !vec_has_key(&self.returns, key);
            if pending {
                out.push(key.clone());
                proof {
                    lemma_has_key_push(out_before, out@.last());
                    assert forall|p: int, q: int|
                        0 <= p < q < out@.len() implies out@[p]@ != out@[q]@ by {
                        if q == out@.len() - 1 {
                            if out_before[p]@ == self.requests@[i as int]@ {
                                assert(has_key(out_before, self.requests@[i as int]@));
                                let ki = self.requests@[i as int]@;
                                let w = choose|w: int|
                                    0 <= w < self.requests@.take(i as int).len()
                                        && self.requests@.take(i as int)[w]@ == ki;
                                assert(self.requests@[w]@ == ki);
                            }
                        }
                    }
                }
            }
            proof {
                assert(self.requests@.take(i as int + 1) =~= self.requests@.take(i as int).push(
                    self.requests@[i as int],
                ));
                lemma_has_key_push(self.requests@.take(i as int), self.requests@[i as int]);
            }
            i = i + 1;
        }
        proof {
            assert(self.requests@.take(n as int) =~= self.requests@);
        }
        out
    }

    /// How often a task for `s` has been polled against this registry.
    pub fn polls(&self, s: &str) -> (r: u64)
        ensures
            r == self.poll_count(s@),
    {
        let owned = s.to_owned();
        count_lookup(&self.polls, &owned)
    }
}

impl EchoTask {
    /// The key this request was issued for; the task completes with it.
    pub closed spec fn key(&self) -> Seq<char> {
        self.input@
    }

    /// One poll step against the registry. The poll is always recorded for
    /// the task's key; the task completes, with its key, exactly when the
    /// registry currently marks the key as fulfilled, and completing consumes
    /// that mark.
    pub fn poll_once(&mut self, reg: &mut Echo) -> (r: Option<String>)
        requires
            !old(self).done(),
            old(reg).wf(),
        ensures
            final(reg).wf(),
            echo_poll_step(*old(self), *old(reg), *final(self), *final(reg)),
            final(self).key() == old(self).key(),
            final(self).polls() == old(self).polls() + 1,
            ((r is Some) <==> old(reg).returned(old(self).key())),
            ((r is Some) <==> final(self).done()),
            (r matches Some(v) ==> v@ == old(self).key() && v == final(self).output()),
            (r is Some ==> !final(reg).returned(old(self).key())),
            forall|k: Seq<char>|
                k != old(self).key() ==> (#[trigger] final(reg).returned(k) <==> old(
                    reg,
                ).returned(k)),
            (r is None ==> forall|k: Seq<char>|
                (#[trigger] final(reg).returned(k) <==> old(reg).returned(k))),
            forall|k: Seq<char>|
                (#[trigger] final(reg).requested(k) <==> old(reg).requested(k)),
            (old(reg).poll_count(old(self).key()) < u64::MAX ==> final(reg).poll_count(
                old(self).key(),
            ) == old(reg).poll_count(old(self).key()) + 1),
            (old(reg).poll_count(old(self).key()) == u64::MAX ==> final(reg).poll_count(
                old(self).key(),
            ) == u64::MAX),
            forall|k: Seq<char>|
                k != old(self).key() ==> #[trigger] final(reg).poll_count(k) == old(
                    reg,
                ).poll_count(k),
    {
        bump_count(&mut reg.polls, &self.input);
        proof {
            self.count@ = self.count@ + 1;
        }
        if vec_has_key(&reg.returns, &self.input) {
            remove_key(&mut reg.returns, self.input.as_str());
            self.finished = true;
            Some(self.input.clone())
        } else {
            None
        }
    }

    /// The boundary that detects the protocol violation of polling an echo
    /// task again after it handed out its value: such a poll is rejected with
    /// an explicit violation and changes nothing.
    pub fn poll_checked(&mut self, reg: &mut Echo) -> (r: Result<Option<String>, Violation>)
        requires
            old(reg).wf(),
        ensures
            final(reg).wf(),
            old(self).done() ==> r == Result::<Option<String>, Violation>::Err(
                Violation::PolledAfterCompletion,
            ) && *final(self) == *old(self) && *final(reg) == *old(reg),
            !old(self).done() ==> ({
                &&& r is Ok
                &&& final(self).key() == old(self).key()
                &&& final(self).polls() == old(self).polls() + 1
                &&& ((r->Ok_0 is Some) <==> old(reg).returned(old(self).key()))
                &&& ((r->Ok_0 is Some) <==> final(self).done())
                &&& (r->Ok_0 matches Some(v) ==> v@ == old(self).key()
                    && v == final(self).output())
                &&& (r->Ok_0 is Some ==> !final(reg).returned(old(self).key()))
                &&& (forall|k: Seq<char>|
                    k != old(self).key() ==> (#[trigger] final(reg).returned(k) <==> old(
                        reg,
                    ).returned(k)))
                &&& (r->Ok_0 is None ==> forall|k: Seq<char>|
                    (#[trigger] final(reg).returned(k) <==> old(reg).returned(k)))
                &&& (forall|k: Seq<char>|
                    (#[trigger] final(reg).requested(k) <==> old(reg).requested(k)))
                &&& (forall|k: Seq<char>|
                    k != old(self).key() ==> #[trigger] final(reg).poll_count(k) == old(
                        reg,
                    ).poll_count(k))
            }),
    {
        if self.finished {
            return Err(Violation::PolledAfterCompletion);
        }
        Ok(self.poll_once(reg))
    }
}

impl Task for EchoTask {
    type Output = String;

    type Cx = Echo;

    open spec fn cx_wf(cx: &Echo) -> bool {
        cx.wf()
    }

    open spec fn step(pre: EchoTask, pre_cx: Echo, post: EchoTask, post_cx: Echo) -> bool {
        echo_poll_step(pre, pre_cx, post, post_cx)
    }

    closed spec fn done(&self) -> bool {
        self.finished
    }

    closed spec fn polls(&self) -> nat {
        self.count@
    }

    closed spec fn output(&self) -> String {
        self.input
    }

    fn poll(&mut self, cx: &mut Echo) -> (r: Option<String>) {
        self.poll_once(cx)
    }
}

/// Whether `key` occurs in `v`, by string contents.
fn vec_has_key(v: &Vec<String>, key: &String) -> (r: bool)
    ensures
        r == has_key(v@, key@),
{
    let n = v.len();
    let mut i: usize = 0;
    while i < n
        invariant
            n == v@.len(),
            i <= n,
            forall|j: int| 0 <= j < i ==> v@[j]@ != key@,
        decreases n - i,
    {
        if v[i] == *key {
            return true;
        }
        i = i + 1;
    }
    false
}

/// Remove the string reading `key` from `v`, if present; every other key's
/// membership is untouched.
fn remove_key(v: &mut Vec<String>, key: &str)
    requires
        distinct_keys(old(v)@),
    ensures
        distinct_keys(final(v)@),
        !has_key(final(v)@, key@),
        forall|k: Seq<char>|
            k != key@ ==> (#[trigger] has_key(final(v)@, k) <==> has_key(old(v)@, k)),
{
    let owned = key.to_owned();
    let n = v.len();
    let mut i: usize = 0;
    while i < n
        invariant
            n == v@.len(),
            i <= n,
            distinct_keys(v@),
            v@ == old(v)@,
            owned@ == key@,
            forall|j: int| 0 <= j < i ==> v@[j]@ != key@,
        decreases n - i,
    {
        if v[i] == owned {
            let ghost before = v@;
            v.remove(i);
            proof {
                before.remove_ensures(i as int);
                assert forall|k: Seq<char>|
                    k != key@ implies (#[trigger] has_key(v@, k) <==> has_key(before, k)) by {
                    if has_key(v@, k) {
                        let w = choose|w: int| 0 <= w < v@.len() && v@[w]@ == k;
                        if w < i {
                            assert(before[w]@ == k);
                        } else {
                            assert(before[w + 1]@ == k);
                        }
                    }
                    if has_key(before, k) {
                        let w = choose|w: int| 0 <= w < before.len() && before[w]@ == k;
                        if w < i {
                            assert(v@[w]@ == k);
                        } else if w > i {
                            assert(v@[w - 1]@ == k);
                        }
                    }
                }
                assert(!has_key(v@, key@)) by {
                    if has_key(v@, key@) {
                        let w = choose|w: int| 0 <= w < v@.len() && v@[w]@ == key@;
                        if w < i {
                            assert(before[w]@ == key@);
                        } else {
                            assert(before[w + 1]@ == key@);
                            assert(before[i as int]@ == key@);
                        }
                    }
                }
                assert forall|p: int, q: int|
                    0 <= p < q < v@.len() implies v@[p]@ != v@[q]@ by {
                    if p < i {
                        assert(v@[p] == before[p]);
                    } else {
                        assert(v@[p] == before[p + 1]);
                    }
                    if q < i {
                        assert(v@[q] == before[q]);
                    } else {
                        assert(v@[q] == before[q + 1]);
                    }
                }
            }
            return ;
        }
        i = i + 1;
    }
}

/// The count recorded for `key`, zero when absent.
fn count_lookup(polls: &Vec<(String, u64)>, key: &String) -> (r: u64)
    ensures
        r == count_for(polls@, key@),
{
    let n = polls.len();
    proof {
        assert(polls@.skip(0) =~= polls@);
    }
    let mut i: usize = 0;
    while i < n
        invariant
            n == polls@.len(),
            i <= n,
            count_for(polls@, key@) == count_for(polls@.skip(i as int), key@),
            forall|j: int| 0 <= j < i ==> polls@[j].0@ != key@,
        decreases n - i,
    {
        if polls[i].0 == *key {
            proof {
                assert(polls@.skip(i as int)[0] == polls@[i as int]);
            }
            return polls[i].1;
        }
        proof {
            assert(polls@.skip(i as int).drop_first() =~= polls@.skip(i as int + 1));
            assert(polls@.skip(i as int)[0] == polls@[i as int]);
        }
        i = i + 1;
    }
    proof {
        assert(polls@.skip(n as int) =~= Seq::<(String, u64)>::empty());
    }
    0
}

/// Record one more poll for `key`, holding at the counter's ceiling; every
/// other key's count is untouched.
fn bump_count(polls: &mut Vec<(String, u64)>, key: &String)
    requires
        forall|i: int, j: int|
            0 <= i < j < old(polls)@.len() ==> old(polls)@[i].0@ != old(polls)@[j].0@,
    ensures
        forall|i: int, j: int|
            0 <= i < j < final(polls)@.len() ==> final(polls)@[i].0@ != final(polls)@[j].0@,
        (count_for(old(polls)@, key@) < u64::MAX ==> count_for(final(polls)@, key@) == count_for(
            old(polls)@,
            key@,
        ) + 1),
        (count_for(old(polls)@, key@) == u64::MAX ==> count_for(final(polls)@, key@) == u64::MAX),
        forall|k: Seq<char>|
            k != key@ ==> #[trigger] count_for(final(polls)@, k) == count_for(old(polls)@, k),
{
    let n = polls.len();
    let mut i: usize = 0;
    while i < n
        invariant
            n == polls@.len(),
            i <= n,
            polls@ == old(polls)@,
            forall|p: int, q: int| 0 <= p < q < polls@.len() ==> polls@[p].0@ != polls@[q].0@,
            forall|j: int| 0 <= j < i ==> polls@[j].0@ != key@,
        decreases n - i,
    {
        if polls[i].0 == *key {
            let c = polls[i].1;
            let c2 = if c < u64::MAX {
                c + 1
            } else {
                c
            };
            let ghost before = polls@;
            polls[i] = (key.clone(), c2);
            proof {
                assert(polls@[i as int].0@ == key@);
                assert forall|j: int|
                    0 <= j < before.len() && j != i implies polls@[j] == before[j] by {}
                lemma_count_at_index(before, key@, i as int);
                lemma_count_update(before, polls@, i as int, key@, c2);
                assert forall|p: int, q: int|
                    0 <= p < q < polls@.len() implies polls@[p].0@ != polls@[q].0@ by {
                    if p != i {
                        assert(polls@[p] == before[p]);
                    }
                    if q != i {
                        assert(polls@[q] == before[q]);
                    }
                    assert(before[i as int].0@ == key@);
                }
            }
            return ;
        }
        i = i + 1;
    }
    let ghost before = polls@;
    polls.push((key.clone(), 1));
    proof {
        lemma_count_absent(before, key@);
        lemma_count_append(before, polls@.last().0, 1u64);
    }
}

/// When no entry carries `k`, the recorded count is zero.
proof fn lemma_count_absent(s: Seq<(String, u64)>, k: Seq<char>)
    requires
        forall|j: int| 0 <= j < s.len() ==> s[j].0@ != k,
    ensures
        count_for(s, k) == 0,
    decreases s.len(),
{
    if s.len() > 0 {
        lemma_count_absent(s.drop_first(), k);
    }
}

/// When the first entry carrying `k` sits at index `i`, it holds the count.
proof fn lemma_count_at_index(s: Seq<(String, u64)>, k: Seq<char>, i: int)
    requires
        0 <= i < s.len(),
        s[i].0@ == k,
        forall|j: int| 0 <= j < i ==> s[j].0@ != k,
    ensures
        count_for(s, k) == s[i].1,
    decreases i,
{
    if i > 0 {
        lemma_count_at_index(s.drop_first(), k, i - 1);
    }
}

/// Overwriting the entry at `i` (the first to carry `k`) sets `k`'s count and
/// leaves every other count alone.
proof fn lemma_count_update(
    before: Seq<(String, u64)>,
    after: Seq<(String, u64)>,
    i: int,
    k: Seq<char>,
    c2: u64,
)
    requires
        0 <= i < before.len(),
        after.len() == before.len(),
        before[i].0@ == k,
        after[i].0@ == k,
        after[i].1 == c2,
        forall|j: int| 0 <= j < before.len() && j != i ==> after[j] == before[j],
        forall|j: int| 0 <= j < i ==> before[j].0@ != k,
    ensures
        count_for(after, k) == c2,
        forall|k2: Seq<char>| k2 != k ==> #[trigger] count_for(after, k2) == count_for(before, k2),
    decreases i,
{
    if i == 0 {
        assert forall|k2: Seq<char>|
            k2 != k implies #[trigger] count_for(after, k2) == count_for(before, k2) by {
            assert(after.drop_first() =~= before.drop_first());
        }
    } else {
        assert forall|j: int|
            0 <= j < before.drop_first().len() && j != i - 1 implies after.drop_first()[j]
            == before.drop_first()[j] by {
            assert(after[j + 1] == before[j + 1]);
        }
        lemma_count_update(before.drop_first(), after.drop_first(), i - 1, k, c2);
        assert(after[0] == before[0]);
        assert(count_for(after, k) == count_for(after.drop_first(), k));
        assert forall|k2: Seq<char>|
            k2 != k implies #[trigger] count_for(after, k2) == count_for(before, k2) by {
            assert(count_for(after.drop_first(), k2) == count_for(before.drop_first(), k2));
        }
    }
}

/// Appending a fresh entry sets its key's count and leaves the rest alone.
proof fn lemma_count_append(before: Seq<(String, u64)>, s: String, c: u64)
    requires
        forall|j: int| 0 <= j < before.len() ==> before[j].0@ != s@,
    ensures
        count_for(before.push((s, c)), s@) == c,
        forall|k2: Seq<char>|
            k2 != s@ ==> #[trigger] count_for(before.push((s, c)), k2) == count_for(before, k2),
    decreases before.len(),
{
    if before.len() == 0 {
        assert(before.push((s, c))[0] == (s, c));
        assert(before.push((s, c)).drop_first() =~= Seq::<(String, u64)>::empty());
        assert forall|k2: Seq<char>|
            k2 != s@ implies #[trigger] count_for(before.push((s, c)), k2) == count_for(
            before,
            k2,
        ) by {
            assert(count_for(before.push((s, c)).drop_first(), k2) == 0);
        }
    } else {
        lemma_count_append(before.drop_first(), s, c);
        assert(before.push((s, c)).drop_first() =~= before.drop_first().push((s, c)));
        assert(before.push((s, c))[0] == before[0]);
        assert(count_for(before.push((s, c)), s@) == count_for(
            before.drop_first().push((s, c)),
            s@,
        ));
        assert forall|k2: Seq<char>|
            k2 != s@ implies #[trigger] count_for(before.push((s, c)), k2) == count_for(
            before,
            k2,
        ) by {
            assert(count_for(before.drop_first().push((s, c)), k2) == count_for(
                before.drop_first(),
                k2,
            ));
        }
    }
}

} // verus!

