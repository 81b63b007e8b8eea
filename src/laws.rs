//! Properties of the tracker that hold over whole runs of datagrams.
use vstd::prelude::*;

use crate::tracker::{
    events, expired, expected_at_arrival, expired_losses, gap_entries, has_key, initial,
    is_reset, is_stale, keys_distinct, next_state, observation, opens_gap, run, span_exceeded, succ,
    surviving, without_key, without_range, wf, Arrival, Message, Packet, TrackerModel,
};

verus! {

/// Every event that a timeout sweep gives is a `Lost` event.
pub proof fn lemma_sweep_gives_only_losses(p: Seq<(u64, u64)>, now: u64, timeout: u64)
    ensures
        forall|i: int|
            0 <= i < expired_losses(p, now, timeout).len() ==> #[trigger] expired_losses(
                p,
                now,
                timeout,
            )[i] is Lost,
    decreases p.len(),
{
    if p.len() > 0 {
        lemma_sweep_gives_only_losses(p.drop_last(), now, timeout);
    }
}

/// Datagrams numbered 0, 1, 2, ... in order, with nothing missing, give one
/// observation each, in which the receiver expected exactly the sequence
/// number sent, and no `Lost` or `Reset` event.
pub proof fn lemma_no_loss_baseline(loss_timeout: u64, span_ceiling: u64, s: Seq<Arrival>)
    requires
        forall|i: int| 0 <= i < s.len() ==> (#[trigger] s[i]).sequence == i,
    ensures
        run(initial(loss_timeout, span_ceiling), s) is Some,
        ({
            let (m, ev) = run(initial(loss_timeout, span_ceiling), s)->0;
            &&& ev.len() == s.len()
            &&& forall|i: int|
                0 <= i < s.len() ==> #[trigger] ev[i] == Message::Packet(
                    Packet {
                        sequence_sender: s[i].sequence,
                        sequence_receiver: s[i].sequence,
                        sent_at: s[i].sent_at,
                        received_at: s[i].received_at,
                        remote: s[i].remote,
                        recv_size: s[i].recv_size,
                    },
                )
            &&& m.pending.len() == 0
            &&& s.len() == 0 ==> m.last_remote is None
            &&& s.len() > 0 ==> m.expected == succ(s.last().sequence)
            &&& m.loss_timeout == loss_timeout
            &&& m.span_ceiling == span_ceiling
        }),
    decreases s.len(),
{
    if s.len() > 0 {
        let s0 = s.drop_last();
        assert forall|i: int| 0 <= i < s0.len() implies (#[trigger] s0[i]).sequence == i by {
            assert(s0[i] == s[i]);
        }
        lemma_no_loss_baseline(loss_timeout, span_ceiling, s0);
        let (m1, ev1) = run(initial(loss_timeout, span_ceiling), s0)->0;
        let a = s.last();
        assert(a.sequence == s.len() - 1);
        if s0.len() > 0 {
            assert(s0.last() == s[s.len() - 2]);
        }
        assert(expected_at_arrival(m1, a) == a.sequence);
        assert(m1.pending =~= seq![]);
        assert(!is_reset(m1, a));
        let ev = ev1 + events(m1, a);
        assert(events(m1, a) =~= seq![Message::Packet(observation(m1, a))]);
        assert forall|i: int| 0 <= i < s.len() implies #[trigger] ev[i] == Message::Packet(
            Packet {
                sequence_sender: s[i].sequence,
                sequence_receiver: s[i].sequence,
                sent_at: s[i].sent_at,
                received_at: s[i].received_at,
                remote: s[i].remote,
                recv_size: s[i].recv_size,
            },
        ) by {
            if i < s0.len() {
                assert(ev[i] == ev1[i]);
                assert(s0[i] == s[i]);
            }
        }
        assert(next_state(m1, a).pending =~= seq![]);
    }
}

/// A sequence 0 from a port other than the one last recorded is taken as a
/// restart: after the timed-out losses comes exactly one `Reset`, then the
/// observation, which shows that 0 was expected; the next expected number is 1.
pub proof fn lemma_session_reset(m: TrackerModel, a: Arrival)
    requires
        a.sequence == 0,
        m.last_remote is Some,
        m.last_remote->0.port != a.remote.port,
    ensures
        !span_exceeded(m, a),
        ({
            let l = expired_losses(m.pending, a.received_at, m.loss_timeout).len() as int;
            let ev = events(m, a);
            &&& ev.len() == l + 2
            &&& forall|i: int| 0 <= i < l ==> #[trigger] ev[i] is Lost
            &&& ev[l] == Message::Reset
            &&& ev[l + 1] is Packet
            &&& ev[l + 1]->Packet_0.sequence_receiver == 0
            &&& ev[l + 1]->Packet_0.sequence_sender == 0
        }),
        next_state(m, a).expected == 1,
        next_state(m, a).last_remote == Some(a.remote),
{
    let lost = expired_losses(m.pending, a.received_at, m.loss_timeout);
    lemma_sweep_gives_only_losses(m.pending, a.received_at, m.loss_timeout);
    let ev = events(m, a);
    assert forall|i: int| 0 <= i < lost.len() implies #[trigger] ev[i] is Lost by {
        assert(ev[i] == lost[i]);
    }
}

/// The first sequence 0 ever seen, with no sender recorded yet, starts a
/// session without a `Reset` and records the sender.
pub proof fn lemma_first_session(m: TrackerModel, a: Arrival)
    requires
        m.last_remote is None,
    ensures
        !is_reset(m, a),
        forall|i: int| 0 <= i < events(m, a).len() ==> !(#[trigger] events(m, a)[i] is Reset),
        a.sequence == 0 ==> next_state(m, a).last_remote == Some(a.remote),
{
    let lost = expired_losses(m.pending, a.received_at, m.loss_timeout);
    lemma_sweep_gives_only_losses(m.pending, a.received_at, m.loss_timeout);
    let ev = events(m, a);
    assert forall|i: int| 0 <= i < ev.len() implies !(#[trigger] ev[i] is Reset) by {
        if i < lost.len() {
            assert(ev[i] == lost[i]);
        } else {
            assert(ev[i] == Message::Packet(observation(m, a)));
        }
    }
}

/// A datagram that opens a gap wider than the ceiling is refused as a
/// whole, rather than turned into a burst of losses.
pub proof fn lemma_ceiling_guard(m: TrackerModel, a: Arrival)
    requires
        opens_gap(m, a),
        a.sequence - expected_at_arrival(m, a) > m.span_ceiling,
    ensures
        span_exceeded(m, a),
        run(m, seq![a]) is None,
{
    let s = seq![a];
    assert(s.drop_last() =~= Seq::<Arrival>::empty());
    assert(run(m, s.drop_last()) == Some((m, Seq::<Message>::empty())));
    assert(s.last() == a);
}

proof fn lemma_surviving(p: Seq<(u64, u64)>, now: u64, timeout: u64)
    ensures
        forall|k: u64|
            #[trigger] has_key(surviving(p, now, timeout), k) ==> exists|i: int|
                0 <= i < p.len() && p[i].0 == k && !expired(p[i].1, now, timeout),
        keys_distinct(p) ==> keys_distinct(surviving(p, now, timeout)),
    decreases p.len(),
{
    if p.len() > 0 {
        let q = p.drop_last();
        lemma_surviving(q, now, timeout);
        let r = surviving(q, now, timeout);
        assert forall|k: u64| #[trigger]
            has_key(surviving(p, now, timeout), k) implies exists|i: int|
            0 <= i < p.len() && p[i].0 == k && !expired(p[i].1, now, timeout) by {
            let j = choose|j: int|
                0 <= j < surviving(p, now, timeout).len() && surviving(p, now, timeout)[j].0 == k;
            if j < r.len() {
                assert(has_key(r, k));
                let i = choose|i: int|
                    0 <= i < q.len() && q[i].0 == k && !expired(q[i].1, now, timeout);
                assert(p[i] == q[i]);
            } else {
                assert(p[p.len() - 1] == p.last());
            }
        }
        if keys_distinct(p) {
            assert(keys_distinct(q)) by {
                assert forall|i: int, j: int|
                    0 <= i < q.len() && 0 <= j < q.len() && i != j implies q[i].0 != q[j].0 by {
                    assert(q[i] == p[i] && q[j] == p[j]);
                }
            }
            if !expired(p.last().1, now, timeout) {
                if has_key(r, p.last().0) {
                    let i = choose|i: int|
                        0 <= i < q.len() && q[i].0 == p.last().0 && !expired(q[i].1, now, timeout);
                    assert(p[i] == q[i]);
                    assert(p[p.len() - 1] == p.last());
                }
                lemma_push_distinct(r, p.last());
            }
        }
    }
}

proof fn lemma_push_distinct(r: Seq<(u64, u64)>, e: (u64, u64))
    requires
        keys_distinct(r),
        !has_key(r, e.0),
    ensures
        keys_distinct(r.push(e)),
{
    let s = r.push(e);
    assert forall|i: int, j: int| 0 <= i < s.len() && 0 <= j < s.len() && i != j implies s[i].0
        != s[j].0 by {
        if i < r.len() {
            assert(s[i] == r[i]);
        }
        if j < r.len() {
            assert(s[j] == r[j]);
        }
    }
}

proof fn lemma_expired_losses(p: Seq<(u64, u64)>, now: u64, timeout: u64)
    ensures
        forall|j: int|
            0 <= j < expired_losses(p, now, timeout).len() ==> exists|i: int|
                0 <= i < p.len() && #[trigger] expired_losses(p, now, timeout)[j] == Message::Lost(
                    p[i].0,
                ) && expired(p[i].1, now, timeout),
    decreases p.len(),
{
    if p.len() > 0 {
        let q = p.drop_last();
        lemma_expired_losses(q, now, timeout);
        let r = expired_losses(q, now, timeout);
        assert forall|j: int| 0 <= j < expired_losses(p, now, timeout).len() implies exists|i: int|
            0 <= i < p.len() && #[trigger] expired_losses(p, now, timeout)[j] == Message::Lost(
                p[i].0,
            ) && expired(p[i].1, now, timeout) by {
            if j < r.len() {
                assert(expired_losses(p, now, timeout)[j] == r[j]);
                let i = choose|i: int|
                    0 <= i < q.len() && r[j] == Message::Lost(q[i].0) && expired(
                        q[i].1,
                        now,
                        timeout,
                    );
                assert(p[i] == q[i]);
            } else {
                assert(p[p.len() - 1] == p.last());
            }
        }
    }
}

proof fn lemma_without_key(p: Seq<(u64, u64)>, k: u64)
    ensures
        forall|x: u64| #[trigger] has_key(without_key(p, k), x) ==> has_key(p, x) && x != k,
        keys_distinct(p) ==> keys_distinct(without_key(p, k)),
    decreases p.len(),
{
    if p.len() > 0 {
        let q = p.drop_last();
        lemma_without_key(q, k);
        let r = without_key(q, k);
        assert forall|x: u64| #[trigger] has_key(without_key(p, k), x) implies has_key(p, x) && x
            != k by {
            let j = choose|j: int| 0 <= j < without_key(p, k).len() && without_key(p, k)[j].0 == x;
            if j < r.len() {
                assert(has_key(r, x));
                let i = choose|i: int| 0 <= i < q.len() && q[i].0 == x;
                assert(p[i] == q[i]);
            } else {
                assert(p[p.len() - 1] == p.last());
            }
        }
        if keys_distinct(p) {
            lemma_distinct_prefix(p);
            if p.last().0 != k && has_key(r, p.last().0) {
                let i = choose|i: int| 0 <= i < q.len() && q[i].0 == p.last().0;
                assert(p[i] == q[i]);
                assert(p[p.len() - 1] == p.last());
            }
        }
    }
}

proof fn lemma_distinct_prefix(p: Seq<(u64, u64)>)
    requires
        keys_distinct(p),
        p.len() > 0,
    ensures
        keys_distinct(p.drop_last()),
{
    let q = p.drop_last();
    assert forall|i: int, j: int| 0 <= i < q.len() && 0 <= j < q.len() && i != j implies q[i].0
        != q[j].0 by {
        assert(q[i] == p[i] && q[j] == p[j]);
    }
}

proof fn lemma_without_range(p: Seq<(u64, u64)>, lo: u64, hi: u64)
    ensures
        forall|x: u64| #[trigger]
            has_key(without_range(p, lo, hi), x) ==> has_key(p, x) && !(lo <= x < hi),
        keys_distinct(p) ==> keys_distinct(without_range(p, lo, hi)),
    decreases p.len(),
{
    if p.len() > 0 {
        let q = p.drop_last();
        lemma_without_range(q, lo, hi);
        let r = without_range(q, lo, hi);
        assert forall|x: u64| #[trigger] has_key(without_range(p, lo, hi), x) implies has_key(p, x)
            && !(lo <= x < hi) by {
            let j = choose|j: int|
                0 <= j < without_range(p, lo, hi).len() && without_range(p, lo, hi)[j].0 == x;
            if j < r.len() {
                assert(has_key(r, x));
                let i = choose|i: int| 0 <= i < q.len() && q[i].0 == x;
                assert(p[i] == q[i]);
            } else {
                assert(p[p.len() - 1] == p.last());
            }
        }
        if keys_distinct(p) {
            lemma_distinct_prefix(p);
            if !(lo <= p.last().0 < hi) && has_key(r, p.last().0) {
                let i = choose|i: int| 0 <= i < q.len() && q[i].0 == p.last().0;
                assert(p[i] == q[i]);
                assert(p[p.len() - 1] == p.last());
            }
        }
    }
}

/// No step of the tracker puts a sequence number twice into its pending table.
pub proof fn lemma_next_state_wf(m: TrackerModel, a: Arrival)
    requires
        wf(m),
        !span_exceeded(m, a),
    ensures
        wf(next_state(m, a)),
{
    let now = a.received_at;
    let kept = surviving(m.pending, now, m.loss_timeout);
    let e = expected_at_arrival(m, a);
    lemma_surviving(m.pending, now, m.loss_timeout);
    lemma_without_key(kept, a.sequence);
    if opens_gap(m, a) {
        lemma_without_range(kept, e, a.sequence);
        let w = without_range(kept, e, a.sequence);
        let g = gap_entries(e, a.sequence, now);
        let s = w + g;
        assert forall|i: int, j: int| 0 <= i < s.len() && 0 <= j < s.len() && i != j implies s[i].0
            != s[j].0 by {
            if i < w.len() && j >= w.len() {
                assert(has_key(w, s[i].0));
            } else if j < w.len() && i >= w.len() {
                assert(has_key(w, s[j].0));
            }
        }
    }
}

/// A datagram that was pending and has not timed out is a late arrival:
/// it is observed, taken out of the pending table, leaves the expected
/// number as it was, and is never reported lost.
pub proof fn lemma_late_arrival(m: TrackerModel, a: Arrival)
    requires
        wf(m),
        a.sequence != expected_at_arrival(m, a),
        has_key(surviving(m.pending, a.received_at, m.loss_timeout), a.sequence),
    ensures
        !span_exceeded(m, a),
        forall|i: int|
            0 <= i < events(m, a).len() ==> #[trigger] events(m, a)[i] != Message::Lost(a.sequence),
        events(m, a).last() == Message::Packet(observation(m, a)),
        !has_key(next_state(m, a).pending, a.sequence),
        next_state(m, a).expected == expected_at_arrival(m, a),
{
    let now = a.received_at;
    let t = m.loss_timeout;
    let kept = surviving(m.pending, now, t);
    let lost = expired_losses(m.pending, now, t);
    lemma_surviving(m.pending, now, t);
    lemma_expired_losses(m.pending, now, t);
    lemma_without_key(kept, a.sequence);
    let ev = events(m, a);
    let live = choose|i: int|
        0 <= i < m.pending.len() && m.pending[i].0 == a.sequence && !expired(m.pending[i].1, now, t);
    assert forall|i: int| 0 <= i < ev.len() implies #[trigger] ev[i] != Message::Lost(a.sequence) by {
        if i < lost.len() {
            assert(ev[i] == lost[i]);
            let k = choose|k: int|
                0 <= k < m.pending.len() && lost[i] == Message::Lost(m.pending[k].0) && expired(
                    m.pending[k].1,
                    now,
                    t,
                );
            if ev[i] == Message::Lost(a.sequence) {
                assert(k != live);
            }
        }
    }
}

/// A datagram past a gap within the ceiling is observed with the number
/// that was expected before it; every number skipped becomes pending,
/// stamped with the arrival time, and the datagram after it is expected next.
pub proof fn lemma_gap_detection(m: TrackerModel, a: Arrival)
    requires
        opens_gap(m, a),
        !span_exceeded(m, a),
    ensures
        events(m, a).last() == Message::Packet(observation(m, a)),
        observation(m, a).sequence_receiver == expected_at_arrival(m, a),
        forall|k: u64|
            expected_at_arrival(m, a) <= k < a.sequence ==> #[trigger] has_key(
                next_state(m, a).pending,
                k,
            ),
        next_state(m, a).expected == succ(a.sequence),
{
    let e = expected_at_arrival(m, a);
    let w = without_range(surviving(m.pending, a.received_at, m.loss_timeout), e, a.sequence);
    let g = gap_entries(e, a.sequence, a.received_at);
    assert forall|k: u64| e <= k < a.sequence implies #[trigger] has_key(
        next_state(m, a).pending,
        k,
    ) by {
        assert((w + g)[w.len() + (k - e)] == g[k - e]);
    }
}

proof fn lemma_expired_included(p: Seq<(u64, u64)>, now: u64, timeout: u64, i: int)
    requires
        0 <= i < p.len(),
        expired(p[i].1, now, timeout),
    ensures
        exists|j: int|
            0 <= j < expired_losses(p, now, timeout).len() && #[trigger] expired_losses(
                p,
                now,
                timeout,
            )[j] == Message::Lost(p[i].0),
    decreases p.len(),
{
    let q = p.drop_last();
    let r = expired_losses(q, now, timeout);
    if i == p.len() - 1 {
        assert(p.last() == p[i]);
        assert(expired_losses(p, now, timeout)[r.len() as int] == Message::Lost(p[i].0));
    } else {
        assert(q[i] == p[i]);
        lemma_expired_included(q, now, timeout, i);
        let j = choose|j: int| 0 <= j < r.len() && #[trigger] r[j] == Message::Lost(q[i].0);
        assert(expired_losses(p, now, timeout)[j] == r[j]);
    }
}

/// A datagram behind the expected number that is no longer pending (seen
/// before, or already reported lost) is observed and changes nothing else:
/// it is neither an error nor a reset.
pub proof fn lemma_stale_arrival(m: TrackerModel, a: Arrival)
    requires
        is_stale(m, a),
    ensures
        !span_exceeded(m, a),
        events(m, a) == expired_losses(m.pending, a.received_at, m.loss_timeout).push(
            Message::Packet(observation(m, a)),
        ),
        next_state(m, a).expected == m.expected,
        next_state(m, a).pending == surviving(m.pending, a.received_at, m.loss_timeout),
        next_state(m, a).last_remote == m.last_remote,
{
    assert(a.sequence != 0);
    assert(events(m, a) =~= expired_losses(m.pending, a.received_at, m.loss_timeout).push(
        Message::Packet(observation(m, a)),
    ));
}

/// A pending number that arrives only after its loss timeout is reported
/// lost by the sweep of that very arrival, and the arrival itself then
/// changes nothing: it is observed, no error is raised, and the number is
/// no longer pending, so it cannot be reported again.
pub proof fn lemma_timeout_wins(m: TrackerModel, a: Arrival, i: int)
    requires
        wf(m),
        0 <= i < m.pending.len(),
        m.pending[i].0 == a.sequence,
        expired(m.pending[i].1, a.received_at, m.loss_timeout),
        0 < a.sequence < m.expected,
    ensures
        !span_exceeded(m, a),
        exists|j: int|
            0 <= j < events(m, a).len() && #[trigger] events(m, a)[j] == Message::Lost(a.sequence),
        events(m, a).last() == Message::Packet(observation(m, a)),
        !has_key(next_state(m, a).pending, a.sequence),
        next_state(m, a).expected == m.expected,
{
    let now = a.received_at;
    let t = m.loss_timeout;
    let kept = surviving(m.pending, now, t);
    lemma_surviving(m.pending, now, t);
    if has_key(kept, a.sequence) {
        let k = choose|k: int|
            0 <= k < m.pending.len() && m.pending[k].0 == a.sequence && !expired(
                m.pending[k].1,
                now,
                t,
            );
        assert(k != i);
    }
    assert(is_stale(m, a));
    lemma_stale_arrival(m, a);
    lemma_expired_included(m.pending, now, t, i);
    let lost = expired_losses(m.pending, now, t);
    let j = choose|j: int| 0 <= j < lost.len() && #[trigger] lost[j] == Message::Lost(a.sequence);
    assert(events(m, a)[j] == lost[j]);
}

/// A sequence 0 that is still pending and does not come from a restarted
/// sender is a late arrival, not the start of a batch: the expected number
/// stays, 0 leaves the pending table, and it is never reported lost.
pub proof fn lemma_late_zero(m: TrackerModel, a: Arrival)
    requires
        wf(m),
        a.sequence == 0,
        m.expected != 0,
        !is_reset(m, a),
        has_key(surviving(m.pending, a.received_at, m.loss_timeout), 0),
    ensures
        expected_at_arrival(m, a) == m.expected,
        !span_exceeded(m, a),
        forall|i: int|
            0 <= i < events(m, a).len() ==> #[trigger] events(m, a)[i] != Message::Lost(0),
        !has_key(next_state(m, a).pending, 0),
        next_state(m, a).expected == m.expected,
{
    lemma_late_arrival(m, a);
}

} // verus!
