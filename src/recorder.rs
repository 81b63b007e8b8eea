//! The recorder's rule: what each event does to the output sink.
use vstd::prelude::*;

use crate::tracker::{Message, Packet};

verus! {

/// One line of the output sink.
#[derive(Debug, Clone, Copy, PartialEq, Eq, Structural)]
pub enum Record {
    Observed(Packet),
    Lost(u64),
}

/// What the recorder does to the sink for one event.
#[derive(Debug, Clone, Copy, PartialEq, Eq, Structural)]
pub enum SinkOp {
    /// Append the line and flush.
    Append(Record),
    /// Empty the sink: a new session starts a fresh log.
    Truncate,
}

pub open spec fn op_of(m: Message) -> SinkOp {
    match m {
        Message::Packet(p) => SinkOp::Append(Record::Observed(p)),
        Message::Lost(s) => SinkOp::Append(Record::Lost(s)),
        Message::Reset => SinkOp::Truncate,
    }
}

/// The lines the sink holds after the recorder has handled `ms`, in order.
pub open spec fn sink_after(ms: Seq<Message>) -> Seq<Record>
    decreases ms.len(),
{
    if ms.len() == 0 {
        seq![]
    } else {
        match op_of(ms.last()) {
            SinkOp::Append(r) => sink_after(ms.drop_last()).push(r),
            SinkOp::Truncate => seq![],
        }
    }
}

pub fn sink_op(m: Message) -> (r: SinkOp)
    ensures
        r == op_of(m),
{
    match m {
        Message::Packet(p) => SinkOp::Append(Record::Observed(p)),
        Message::Lost(s) => SinkOp::Append(Record::Lost(s)),
        Message::Reset => SinkOp::Truncate,
    }
}

/// After a `Reset` the sink holds only what came after it: a reset
/// leaves it empty, and the lines that follow start a fresh log.
pub proof fn lemma_reset_truncates(before: Seq<Message>, after: Seq<Message>)
    requires
        forall|i: int| 0 <= i < after.len() ==> !(#[trigger] after[i] is Reset),
    ensures
        sink_after(before.push(Message::Reset)) == Seq::<Record>::empty(),
        sink_after(before.push(Message::Reset) + after) == sink_after(after),
    decreases after.len(),
{
    let s = before.push(Message::Reset);
    assert(sink_after(s) =~= Seq::<Record>::empty());
    if after.len() == 0 {
        assert(s + after =~= s);
        assert(sink_after(after) =~= Seq::<Record>::empty());
    } else {
        let a0 = after.drop_last();
        assert forall|i: int| 0 <= i < a0.len() implies !(#[trigger] a0[i] is Reset) by {
            assert(a0[i] == after[i]);
        }
        lemma_reset_truncates(before, a0);
        assert((s + after).drop_last() =~= s + a0);
        assert((s + after).last() == after.last());
        assert(!(after[after.len() - 1] is Reset));
    }
}

} // verus!
