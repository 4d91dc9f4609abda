//! Bounded retry of remote calls: a call that times out is issued again, up
//! to a per-bucket budget; a call that completes, well or badly, is never
//! retried.

use vstd::prelude::*;

verus! {

/// What one issue of a remote call came to.
#[derive(Debug)]
pub enum Attempt<T> {
    /// The call completed within the timeout, with this result.
    Finished(T),
    /// The timeout elapsed first.
    TimedOut,
}

/// What the caller does after an attempt.
#[derive(Debug)]
pub enum RetryStep<T> {
    /// Hand this result back.
    Done(T),
    /// Issue the call again.
    Retry,
    /// Give up: the call timed out more often than the budget allows.
    Exhausted,
}

/// The retry budget of one remote call and what has been spent of it.
#[derive(Debug, Clone, Copy)]
pub struct RetryState {
    /// How many expired timeouts are followed by another attempt.
    pub tries: usize,
    /// How many timeouts have expired so far.
    pub expirations: usize,
}

/// The next state and step after `a`.
pub open spec fn next_step<T>(s: RetryState, a: Attempt<T>) -> (RetryState, RetryStep<T>) {
    match a {
        Attempt::Finished(v) => (s, RetryStep::Done(v)),
        Attempt::TimedOut => if s.expirations >= s.tries {
            (s, RetryStep::Exhausted)
        } else {
            (RetryState { tries: s.tries, expirations: (s.expirations + 1) as usize }, RetryStep::Retry)
        },
    }
}

/// Where a call ends when its attempts come out as `attempts`, and how many
/// attempts it takes; `Retry` when the attempts run out before the end.
pub open spec fn run<T>(s: RetryState, attempts: Seq<Attempt<T>>) -> (RetryStep<T>, nat)
    decreases attempts.len(),
{
    if attempts.len() == 0 {
        (RetryStep::Retry, 0)
    } else {
        let (s2, st) = next_step(s, attempts[0]);
        match st {
            RetryStep::Retry => {
                let (o, n) = run(s2, attempts.drop_first());
                (o, n + 1)
            },
            _ => (st, 1),
        }
    }
}

/// `n` attempts that all timed out.
pub open spec fn timeouts<T>(n: nat) -> Seq<Attempt<T>> {
    Seq::new(n, |i: int| Attempt::TimedOut)
}

impl RetryState {
    /// A fresh budget of `tries` retries.
    pub fn new(tries: usize) -> (r: RetryState)
        ensures
            r.tries == tries,
            r.expirations == 0,
    {
        RetryState { tries, expirations: 0 }
    }

    /// Records one attempt and says what to do next.
    pub fn step<T>(&mut self, attempt: Attempt<T>) -> (r: RetryStep<T>)
        ensures
            (*final(self), r) == next_step(*old(self), attempt),
    {
        match attempt {
            Attempt::Finished(v) => RetryStep::Done(v),
            Attempt::TimedOut => {
                if self.expirations >= self.tries {
                    RetryStep::Exhausted
                } else {
                    self.expirations = self.expirations + 1;
                    RetryStep::Retry
                }
            },
        }
    }
}

/// A call that times out `n` times, no more than the budget left, and then
/// completes with `v` returns `v`, after `n + 1` attempts.
pub proof fn lemma_success_after_timeouts<T>(s: RetryState, n: nat, v: T)
    requires
        s.expirations + n <= s.tries,
    ensures
        run(s, timeouts::<T>(n).push(Attempt::Finished(v))) == (RetryStep::Done(v), n + 1),
    decreases n,
{
    let a = timeouts::<T>(n).push(Attempt::Finished(v));
    if n > 0 {
        let s2 = RetryState { tries: s.tries, expirations: (s.expirations + 1) as usize };
        assert(a.drop_first() =~= timeouts::<T>((n - 1) as nat).push(Attempt::Finished(v)));
        lemma_success_after_timeouts(s2, (n - 1) as nat, v);
    }
}

/// A call that times out once more than its budget allows ends in
/// `Exhausted`, after `tries + 1` attempts, whatever would have come later.
pub proof fn lemma_exhausted_after_budget<T>(s: RetryState, rest: Seq<Attempt<T>>)
    requires
        s.expirations <= s.tries,
    ensures
        run(s, timeouts::<T>((s.tries - s.expirations + 1) as nat) + rest) == (
            RetryStep::<T>::Exhausted,
            (s.tries - s.expirations + 1) as nat,
        ),
    decreases s.tries - s.expirations,
{
    let n = (s.tries - s.expirations + 1) as nat;
    let a = timeouts::<T>(n) + rest;
    assert(a[0] == Attempt::<T>::TimedOut);
    if s.expirations < s.tries {
        let s2 = RetryState { tries: s.tries, expirations: (s.expirations + 1) as usize };
        assert(a.drop_first() =~= timeouts::<T>((n - 1) as nat) + rest);
        lemma_exhausted_after_budget(s2, rest);
    }
}

/// A call that completes at once, well or badly, returns that result after
/// one attempt, with no retry.
pub proof fn lemma_no_retry_on_completion<T>(s: RetryState, v: T, rest: Seq<Attempt<T>>)
    ensures
        run(s, seq![Attempt::Finished(v)] + rest) == (RetryStep::Done(v), 1nat),
{
    assert((seq![Attempt::Finished(v)] + rest)[0] == Attempt::Finished(v));
}

} // verus!
