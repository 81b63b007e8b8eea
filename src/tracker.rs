//! The sequence tracker: reconstructs order and loss from the stream of
//! decoded datagrams and turns each one into events for the recorder.
use vstd::prelude::*;

use crate::codec::{decode, header_of, HEADER_LEN};
use crate::endpoint::Endpoint;
use crate::laws::lemma_next_state_wf;

verus! {

/// How long a missing sequence number may stay pending before it is reported lost.
pub const LOSS_TIMEOUT_NS: u64 = 500_000_000;

/// The largest gap that is taken for loss; a larger one means the stream is corrupt.
pub const LOSS_SPAN_CEILING: u64 = 1_000_000;

/// One datagram as handed to the tracker. Times are nanoseconds since the Unix epoch.
#[derive(Debug, Clone, Copy, PartialEq, Eq, Structural)]
pub struct Arrival {
    pub sequence: u64,
    pub sent_at: u64,
    pub received_at: u64,
    pub remote: Endpoint,
    pub recv_size: usize,
}

/// What was observed of one received datagram.
#[derive(Debug, Clone, Copy, PartialEq, Eq, Structural)]
pub struct Packet {
    pub sequence_sender: u64,
    /// The sequence number the receiver expected when the datagram arrived.
    pub sequence_receiver: u64,
    pub sent_at: u64,
    pub received_at: u64,
    pub remote: Endpoint,
    pub recv_size: usize,
}

impl Packet {
    /// One-way latency in nanoseconds; negative when the clocks disagree.
    pub fn latency_ns(&self) -> (r: i128)
        ensures
            r == self.received_at as int - self.sent_at as int,
    {
        self.received_at as i128 - self.sent_at as i128
    }

    /// Whether the datagram came out of order.
    pub fn out_of_order(&self) -> (r: bool)
        ensures
            r == (self.sequence_sender != self.sequence_receiver),
    {
        self.sequence_sender != self.sequence_receiver
    }
}

/// An event sent from the tracker to the recorder.
#[derive(Debug, Clone, Copy, PartialEq, Eq, Structural)]
pub enum Message {
    Packet(Packet),
    Lost(u64),
    Reset,
}

#[derive(Debug, Clone, Copy, PartialEq, Eq, Structural)]
pub enum TrackError {
    /// The datagram is shorter than its header.
    MalformedPacket,
    /// The datagram is ahead of the expected number by more than the ceiling.
    LossSpanTooLarge,
}

/// The tracker's state, as the contracts see it.
pub struct TrackerModel {
    pub expected: u64,
    pub last_remote: Option<Endpoint>,
    /// Missing sequence numbers, each with the time it was first found missing.
    /// The table is a mapping (`keys_distinct`) kept in order of insertion,
    /// so that the `Lost` events of one sweep come out in a fixed order.
    pub pending: Seq<(u64, u64)>,
    pub loss_timeout: u64,
    pub span_ceiling: u64,
}

pub open spec fn expired(at: u64, now: u64, timeout: u64) -> bool {
    now > at + timeout
}

/// The pending entries that have not timed out at `now`, in order.
pub open spec fn surviving(p: Seq<(u64, u64)>, now: u64, timeout: u64) -> Seq<(u64, u64)>
    decreases p.len(),
{
    if p.len() == 0 {
        seq![]
    } else {
        let r = surviving(p.drop_last(), now, timeout);
        if expired(p.last().1, now, timeout) {
            r
        } else {
            r.push(p.last())
        }
    }
}

/// A `Lost` event for each pending entry that has timed out at `now`, in order.
pub open spec fn expired_losses(p: Seq<(u64, u64)>, now: u64, timeout: u64) -> Seq<Message>
    decreases p.len(),
{
    if p.len() == 0 {
        seq![]
    } else {
        let r = expired_losses(p.drop_last(), now, timeout);
        if expired(p.last().1, now, timeout) {
            r.push(Message::Lost(p.last().0))
        } else {
            r
        }
    }
}

/// No sequence number stands twice in the table.
pub open spec fn keys_distinct(p: Seq<(u64, u64)>) -> bool {
    forall|i: int, j: int| 0 <= i < p.len() && 0 <= j < p.len() && i != j ==> p[i].0 != p[j].0
}

/// The tracker's invariant: its pending table is a mapping.
pub open spec fn wf(m: TrackerModel) -> bool {
    keys_distinct(m.pending)
}

pub open spec fn has_key(p: Seq<(u64, u64)>, k: u64) -> bool {
    exists|i: int| 0 <= i < p.len() && p[i].0 == k
}

pub open spec fn without_key(p: Seq<(u64, u64)>, k: u64) -> Seq<(u64, u64)>
    decreases p.len(),
{
    if p.len() == 0 {
        seq![]
    } else {
        let r = without_key(p.drop_last(), k);
        if p.last().0 == k {
            r
        } else {
            r.push(p.last())
        }
    }
}

/// The entries of `p` whose key is outside `[lo, hi)`.
pub open spec fn without_range(p: Seq<(u64, u64)>, lo: u64, hi: u64) -> Seq<(u64, u64)>
    decreases p.len(),
{
    if p.len() == 0 {
        seq![]
    } else {
        let r = without_range(p.drop_last(), lo, hi);
        if lo <= p.last().0 < hi {
            r
        } else {
            r.push(p.last())
        }
    }
}

/// A pending entry stamped `now` for each sequence number in `[lo, hi)`.
pub open spec fn gap_entries(lo: u64, hi: u64, now: u64) -> Seq<(u64, u64)> {
    Seq::new((hi - lo) as nat, |i: int| ((lo + i) as u64, now))
}

/// The successor of `v` in unsigned 64-bit arithmetic.
pub open spec fn succ(v: u64) -> u64 {
    if v == u64::MAX {
        0
    } else {
        (v + 1) as u64
    }
}

/// A sequence 0 from a port other than the one last recorded: the sender restarted.
pub open spec fn is_reset(m: TrackerModel, a: Arrival) -> bool {
    a.sequence == 0 && m.last_remote is Some && m.last_remote->0.port != a.remote.port
}

/// A sequence 0 that is still pending, and not from a restarted sender,
/// arrived late within its batch rather than starting a new one.
pub open spec fn is_late_zero(m: TrackerModel, a: Arrival) -> bool {
    a.sequence == 0 && !is_reset(m, a) && has_key(
        surviving(m.pending, a.received_at, m.loss_timeout),
        0,
    )
}

/// The expected sequence number once a datagram is seen: a sequence 0
/// starts a new batch, unless it is a late one.
pub open spec fn expected_at_arrival(m: TrackerModel, a: Arrival) -> u64 {
    if a.sequence == 0 && !is_late_zero(m, a) {
        0
    } else {
        m.expected
    }
}

/// The datagram is ahead of the expected number and not pending: the
/// numbers in between are missing.
pub open spec fn opens_gap(m: TrackerModel, a: Arrival) -> bool {
    a.sequence > expected_at_arrival(m, a) && !has_key(
        surviving(m.pending, a.received_at, m.loss_timeout),
        a.sequence,
    )
}

/// The datagram is behind the expected number and not pending: it was
/// already seen or already reported lost, and changes nothing.
pub open spec fn is_stale(m: TrackerModel, a: Arrival) -> bool {
    a.sequence < expected_at_arrival(m, a) && !has_key(
        surviving(m.pending, a.received_at, m.loss_timeout),
        a.sequence,
    )
}

/// The datagram opens a gap wider than the ceiling.
pub open spec fn span_exceeded(m: TrackerModel, a: Arrival) -> bool {
    opens_gap(m, a) && a.sequence - expected_at_arrival(m, a) > m.span_ceiling
}

pub open spec fn observation(m: TrackerModel, a: Arrival) -> Packet {
    Packet {
        sequence_sender: a.sequence,
        sequence_receiver: expected_at_arrival(m, a),
        sent_at: a.sent_at,
        received_at: a.received_at,
        remote: a.remote,
        recv_size: a.recv_size,
    }
}

/// The state after a datagram that does not exceed the ceiling.
pub open spec fn next_state(m: TrackerModel, a: Arrival) -> TrackerModel {
    let kept = surviving(m.pending, a.received_at, m.loss_timeout);
    let e = expected_at_arrival(m, a);
    let last_remote = if a.sequence == 0 && (m.last_remote is None || is_reset(m, a)) {
        Some(a.remote)
    } else {
        m.last_remote
    };
    let (expected, pending) = if a.sequence == e {
        (succ(e), kept)
    } else if has_key(kept, a.sequence) {
        (e, without_key(kept, a.sequence))
    } else if a.sequence < e {
        (e, kept)
    } else {
        (succ(a.sequence), without_range(kept, e, a.sequence) + gap_entries(
            e,
            a.sequence,
            a.received_at,
        ))
    };
    TrackerModel {
        expected,
        last_remote,
        pending,
        loss_timeout: m.loss_timeout,
        span_ceiling: m.span_ceiling,
    }
}

/// The events of a datagram that does not exceed the ceiling: the timed-out
/// losses, a reset if the sender restarted, then the observation.
pub open spec fn events(m: TrackerModel, a: Arrival) -> Seq<Message> {
    expired_losses(m.pending, a.received_at, m.loss_timeout) + (if is_reset(m, a) {
        seq![Message::Reset]
    } else {
        seq![]
    }) + seq![Message::Packet(observation(m, a))]
}

/// The state and events after a run of datagrams, or `None` once one of
/// them exceeds the ceiling.
pub open spec fn run(m: TrackerModel, s: Seq<Arrival>) -> Option<(TrackerModel, Seq<Message>)>
    decreases s.len(),
{
    if s.len() == 0 {
        Some((m, seq![]))
    } else {
        match run(m, s.drop_last()) {
            None => None,
            Some((m1, ev)) => if span_exceeded(m1, s.last()) {
                None
            } else {
                Some((next_state(m1, s.last()), ev + events(m1, s.last())))
            },
        }
    }
}

/// The arrival that a datagram of at least sixteen bytes stands for.
pub open spec fn arrival_of(payload: Seq<u8>, remote: Endpoint, received_at: u64) -> Arrival {
    Arrival {
        sequence: header_of(payload).0,
        sent_at: header_of(payload).1,
        received_at,
        remote,
        recv_size: payload.len() as usize,
    }
}

/// A fresh tracker's state.
pub open spec fn initial(loss_timeout: u64, span_ceiling: u64) -> TrackerModel {
    TrackerModel { expected: 0, last_remote: None, pending: seq![], loss_timeout, span_ceiling }
}

pub struct Tracker {
    expected: u64,
    last_remote: Option<Endpoint>,
    pending: Vec<(u64, u64)>,
    loss_timeout: u64,
    span_ceiling: u64,
}

impl View for Tracker {
    type V = TrackerModel;

    closed spec fn view(&self) -> TrackerModel {
        TrackerModel {
            expected: self.expected,
            last_remote: self.last_remote,
            pending: self.pending@,
            loss_timeout: self.loss_timeout,
            span_ceiling: self.span_ceiling,
        }
    }
}

fn is_expired(at: u64, now: u64, timeout: u64) -> (r: bool)
    ensures
        r == expired(at, now, timeout),
{
    now > at && now - at > timeout
}

fn sweep(p: &Vec<(u64, u64)>, now: u64, timeout: u64) -> (r: (Vec<(u64, u64)>, Vec<Message>))
    ensures
        r.0@ == surviving(p@, now, timeout),
        r.1@ == expired_losses(p@, now, timeout),
{
    let mut kept: Vec<(u64, u64)> = Vec::new();
    let mut lost: Vec<Message> = Vec::new();
    let mut i: usize = 0;
    while i < p.len()
        invariant
            i <= p@.len(),
            kept@ == surviving(p@.take(i as int), now, timeout),
            lost@ == expired_losses(p@.take(i as int), now, timeout),
        decreases p@.len() - i,
    {
        let e = p[i];
        proof {
            assert(p@.take(i + 1).drop_last() =~= p@.take(i as int));
        }
        if is_expired(e.1, now, timeout) {
            lost.push(Message::Lost(e.0));
        } else {
            kept.push(e);
        }
        i = i + 1;
    }
    assert(p@.take(i as int) =~= p@);
    (kept, lost)
}

fn find_key(p: &Vec<(u64, u64)>, k: u64) -> (r: bool)
    ensures
        r == has_key(p@, k),
{
    let mut i: usize = 0;
    while i < p.len()
        invariant
            i <= p@.len(),
            forall|j: int| 0 <= j < i ==> p@[j].0 != k,
        decreases p@.len() - i,
    {
        if p[i].0 == k {
            return true;
        }
        i = i + 1;
    }
    false
}

fn remove_key(p: &Vec<(u64, u64)>, k: u64) -> (r: Vec<(u64, u64)>)
    ensures
        r@ == without_key(p@, k),
{
    let mut out: Vec<(u64, u64)> = Vec::new();
    let mut i: usize = 0;
    while i < p.len()
        invariant
            i <= p@.len(),
            out@ == without_key(p@.take(i as int), k),
        decreases p@.len() - i,
    {
        let e = p[i];
        proof {
            assert(p@.take(i + 1).drop_last() =~= p@.take(i as int));
        }
        if e.0 != k {
            out.push(e);
        }
        i = i + 1;
    }
    assert(p@.take(i as int) =~= p@);
    out
}

fn mark_gap(p: &Vec<(u64, u64)>, lo: u64, hi: u64, now: u64) -> (r: Vec<(u64, u64)>)
    requires
        lo <= hi,
    ensures
        r@ == without_range(p@, lo, hi) + gap_entries(lo, hi, now),
{
    let mut out: Vec<(u64, u64)> = Vec::new();
    let mut i: usize = 0;
    while i < p.len()
        invariant
            i <= p@.len(),
            out@ == without_range(p@.take(i as int), lo, hi),
        decreases p@.len() - i,
    {
        let e = p[i];
        proof {
            assert(p@.take(i + 1).drop_last() =~= p@.take(i as int));
        }
        if e.0 < lo || e.0 >= hi {
            out.push(e);
        }
        i = i + 1;
    }
    assert(p@.take(i as int) =~= p@);
    let ghost kept = out@;
    assert(kept + gap_entries(lo, lo, now) =~= kept);
    let mut k: u64 = lo;
    while k < hi
        invariant
            lo <= k <= hi,
            kept == without_range(p@, lo, hi),
            out@ == kept + gap_entries(lo, k, now),
        decreases hi - k,
    {
        out.push((k, now));
        k = k + 1;
        assert(out@ =~= kept + gap_entries(lo, k, now));
    }
    out
}

impl Tracker {
    /// A tracker with the standard loss timeout and loss-span ceiling.
    pub fn new() -> (r: Tracker)
        ensures
            r@ == initial(LOSS_TIMEOUT_NS, LOSS_SPAN_CEILING),
            wf(r@),
    {
        Tracker::with_limits(LOSS_TIMEOUT_NS, LOSS_SPAN_CEILING)
    }

    /// A tracker that reports a missing datagram lost once it has been
    /// missing for more than `loss_timeout` nanoseconds, and refuses gaps
    /// wider than `span_ceiling`.
    pub fn with_limits(loss_timeout: u64, span_ceiling: u64) -> (r: Tracker)
        ensures
            r@ == initial(loss_timeout, span_ceiling),
            wf(r@),
    {
        let r = Tracker {
            expected: 0,
            last_remote: None,
            pending: Vec::new(),
            loss_timeout,
            span_ceiling,
        };
        assert(r@.pending =~= seq![]);
        r
    }

    /// Takes one datagram into account and returns the events it gives, in
    /// the order the recorder must see them. A gap wider than the ceiling
    /// is refused and leaves the tracker as it was.
    pub fn track(&mut self, a: Arrival) -> (r: Result<Vec<Message>, TrackError>)
        ensures
            r is Err <==> span_exceeded(old(self)@, a),
            r is Err ==> r->Err_0 == TrackError::LossSpanTooLarge && final(self)@ == old(self)@,
            r is Ok ==> r->Ok_0@ == events(old(self)@, a) && final(self)@ == next_state(
                old(self)@,
                a,
            ),
            wf(old(self)@) ==> wf(final(self)@),
    {
        let ghost m = self@;
        proof {
            if wf(m) && !span_exceeded(m, a) {
                lemma_next_state_wf(m, a);
            }
        }
        let now = a.received_at;
        let (kept, mut out) = sweep(&self.pending, now, self.loss_timeout);
        let reset = match self.last_remote {
            Some(r) => a.sequence == 0 && r.port != a.remote.port,
            None => false,
        };
        let late_zero = a.sequence == 0 && !reset && find_key(&kept, 0);
        let e: u64 = if a.sequence == 0 && !late_zero {
            0
        } else {
            self.expected
        };
        let late = a.sequence != e && find_key(&kept, a.sequence);
        if a.sequence > e && !late && a.sequence - e > self.span_ceiling {
            return Err(TrackError::LossSpanTooLarge);
        }
        if a.sequence == 0 && (self.last_remote.is_none() || reset) {
            self.last_remote = Some(a.remote);
        }
        if reset {
            out.push(Message::Reset);
        }
        let packet = Packet {
            sequence_sender: a.sequence,
            sequence_receiver: e,
            sent_at: a.sent_at,
            received_at: a.received_at,
            remote: a.remote,
            recv_size: a.recv_size,
        };
        out.push(Message::Packet(packet));
        if a.sequence == e {
            self.expected = e.wrapping_add(1);
            self.pending = kept;
        } else if late {
            self.expected = e;
            self.pending = remove_key(&kept, a.sequence);
        } else if a.sequence < e {
            self.expected = e;
            self.pending = kept;
        } else {
            self.pending = mark_gap(&kept, e, a.sequence, now);
            self.expected = a.sequence.wrapping_add(1);
        }
        assert(out@ =~= events(m, a));
        Ok(out)
    }

    /// Decodes a received datagram and takes it into account, as `track` does.
    pub fn receive(&mut self, payload: &[u8], remote: Endpoint, received_at: u64) -> (r: Result<
        Vec<Message>,
        TrackError,
    >)
        ensures
            payload@.len() < HEADER_LEN ==> r == Err::<Vec<Message>, TrackError>(
                TrackError::MalformedPacket,
            ) && final(self)@ == old(self)@,
            payload@.len() >= HEADER_LEN ==> {
                let a = arrival_of(payload@, remote, received_at);
                &&& r is Err <==> span_exceeded(old(self)@, a)
                &&& r is Err ==> r->Err_0 == TrackError::LossSpanTooLarge && final(self)@ == old(
                    self,
                )@
                &&& r is Ok ==> r->Ok_0@ == events(old(self)@, a) && final(self)@ == next_state(
                    old(self)@,
                    a,
                )
            },
            wf(old(self)@) ==> wf(final(self)@),
    {
        match decode(payload) {
            Err(_) => Err(TrackError::MalformedPacket),
            Ok((sequence, sent_at)) => {
                let a = Arrival {
                    sequence,
                    sent_at,
                    received_at,
                    remote,
                    recv_size: payload.len(),
                };
                assert(a == arrival_of(payload@, remote, received_at));
                self.track(a)
            },
        }
    }

    /// The sequence number expected next.
    pub fn expected_sequence(&self) -> (r: u64)
        ensures
            r == self@.expected,
    {
        self.expected
    }

    /// The sender address recorded at the last session start.
    pub fn last_remote(&self) -> (r: Option<Endpoint>)
        ensures
            r == self@.last_remote,
    {
        self.last_remote
    }

    /// Whether `sequence` is missing and not yet reported lost.
    pub fn is_pending(&self, sequence: u64) -> (r: bool)
        ensures
            r == has_key(self@.pending, sequence),
    {
        find_key(&self.pending, sequence)
    }

    /// How many sequence numbers are missing and not yet reported lost.
    pub fn pending_len(&self) -> (r: usize)
        ensures
            r == self@.pending.len(),
    {
        self.pending.len()
    }
}

} // verus!
