use udp_loss::endpoint::Endpoint;
use udp_loss::recorder::{sink_op, Record, SinkOp};
use udp_loss::tracker::{Message, Packet};

#[test]
fn reset_truncates_the_sink() {
    assert_eq!(sink_op(Message::Reset), SinkOp::Truncate);
}

#[test]
fn lost_and_observed_are_appended() {
    assert_eq!(sink_op(Message::Lost(7)), SinkOp::Append(Record::Lost(7)));
    let p = Packet {
        sequence_sender: 3,
        sequence_receiver: 2,
        sent_at: 10,
        received_at: 20,
        remote: Endpoint::new(0x7f00_0001, false, 40000),
        recv_size: 16,
    };
    assert_eq!(sink_op(Message::Packet(p)), SinkOp::Append(Record::Observed(p)));
}
