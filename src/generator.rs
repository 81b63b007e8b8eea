//! The sender's pacing: batches of `rate` datagrams numbered from 0, each
//! followed by a one-second pause.
use vstd::prelude::*;

verus! {

/// What the sender does next.
#[derive(Debug, Clone, Copy, PartialEq, Eq, Structural)]
pub enum Action {
    /// Send the datagram with this sequence number.
    Send(u64),
    /// Pause one second; the next batch starts again at sequence 0.
    Pause,
}

/// The `k`-th action (from 0) of a fresh generator with the given rate.
pub open spec fn action_at(rate: u64, k: nat) -> Action {
    let i = k % (rate as nat + 1);
    if i < rate {
        Action::Send(i as u64)
    } else {
        Action::Pause
    }
}

/// The next action, and the sequence number after it, of a generator at `next`.
pub open spec fn gen_step(rate: u64, next: u64) -> (Action, u64) {
    if next < rate {
        (Action::Send(next), (next + 1) as u64)
    } else {
        (Action::Pause, 0)
    }
}

/// The first `n` actions of a generator that starts at `next`, and where it ends up.
pub open spec fn gen_run(rate: u64, next: u64, n: nat) -> (Seq<Action>, u64)
    decreases n,
{
    if n == 0 {
        (seq![], next)
    } else {
        let (acts, at) = gen_run(rate, next, (n - 1) as nat);
        (acts.push(gen_step(rate, at).0), gen_step(rate, at).1)
    }
}

pub struct Generator {
    rate: u64,
    next: u64,
}

impl View for Generator {
    /// The rate and the next sequence number to send.
    type V = (u64, u64);

    closed spec fn view(&self) -> (u64, u64) {
        (self.rate, self.next)
    }
}

impl Generator {
    pub closed spec fn wf(&self) -> bool {
        0 < self.rate && self.next <= self.rate
    }

    /// A generator that sends batches of `rate` datagrams.
    pub fn new(rate: u64) -> (r: Generator)
        requires
            rate > 0,
        ensures
            r.wf(),
            r@ == (rate, 0u64),
    {
        Generator { rate, next: 0 }
    }

    /// Decides the next action and moves past it.
    pub fn next_action(&mut self) -> (r: Action)
        requires
            old(self).wf(),
        ensures
            final(self).wf(),
            final(self)@.0 == old(self)@.0,
            (r, final(self)@.1) == gen_step(old(self)@.0, old(self)@.1),
    {
        if self.next < self.rate {
            let s = self.next;
            self.next = self.next + 1;
            Action::Send(s)
        } else {
            self.next = 0;
            Action::Pause
        }
    }
}

proof fn lemma_gen_run_position(rate: u64, n: nat)
    requires
        rate > 0,
    ensures
        gen_run(rate, 0, n).1 == n % (rate as nat + 1),
        gen_run(rate, 0, n).0.len() == n,
        forall|k: nat| k < n ==> gen_run(rate, 0, n).0[k as int] == action_at(rate, k),
    decreases n,
{
    let r = rate as nat + 1;
    if n > 0 {
        lemma_gen_run_position(rate, (n - 1) as nat);
        let m = (n - 1) as nat;
        assert(gen_run(rate, 0, m).1 == m % r);
        let q = m / r;
        vstd::arithmetic::div_mod::lemma_fundamental_div_mod(m as int, r as int);
        assert(0 <= m % r < r) by {
            vstd::arithmetic::div_mod::lemma_mod_bound(m as int, r as int);
        }
        if m % r < rate {
            vstd::arithmetic::div_mod::lemma_fundamental_div_mod_converse(
                n as int,
                r as int,
                q as int,
                (m % r + 1) as int,
            );
        } else {
            let rem = m % r;
            assert(n == (q + 1) * r + 0) by (nonlinear_arith)
                requires
                    m == r * q + rem,
                    rem == r - 1,
                    n == m + 1,
            ;
            vstd::arithmetic::div_mod::lemma_fundamental_div_mod_converse(
                n as int,
                r as int,
                (q + 1) as int,
                0,
            );
        }
    }
}

/// A fresh generator sends sequence numbers 0 to `rate - 1`, pauses, and
/// starts over: its `k`-th action is `action_at(rate, k)`.
pub proof fn lemma_batches(rate: u64, n: nat)
    requires
        rate > 0,
    ensures
        gen_run(rate, 0, n).0 == Seq::new(n, |k: int| action_at(rate, k as nat)),
{
    lemma_gen_run_position(rate, n);
    assert(gen_run(rate, 0, n).0 =~= Seq::new(n, |k: int| action_at(rate, k as nat)));
}

} // verus!
