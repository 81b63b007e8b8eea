//! Fixed layout of a probe datagram: a big-endian sequence number, a
//! big-endian send time in nanoseconds since the Unix epoch, then zero padding.
use vstd::prelude::*;

verus! {

/// Number of header bytes at the start of every datagram.
pub const HEADER_LEN: usize = 16;

#[derive(Debug, Clone, Copy, PartialEq, Eq, Structural)]
pub enum CodecError {
    /// The requested datagram size cannot hold the header.
    SizeTooSmall,
    /// A received datagram is shorter than the header.
    MalformedPacket,
}

/// The eight bytes of `v`, most significant first.
pub open spec fn be_bytes(v: u64) -> Seq<u8> {
    seq![
        (v >> 56u64) as u8,
        (v >> 48u64) as u8,
        (v >> 40u64) as u8,
        (v >> 32u64) as u8,
        (v >> 24u64) as u8,
        (v >> 16u64) as u8,
        (v >> 8u64) as u8,
        v as u8,
    ]
}

/// The value of the eight bytes of `b` starting at `at`, most significant first.
pub open spec fn be_value(b: Seq<u8>, at: int) -> u64 {
    (b[at] as u64) << 56u64 | (b[at + 1] as u64) << 48u64 | (b[at + 2] as u64) << 40u64 | (
    b[at + 3] as u64) << 32u64 | (b[at + 4] as u64) << 24u64 | (b[at + 5] as u64) << 16u64 | (b[at
        + 6] as u64) << 8u64 | (b[at + 7] as u64)
}

/// The datagram of `size` bytes that carries `sequence` and `sent_at`.
pub open spec fn wire(sequence: u64, sent_at: u64, size: nat) -> Seq<u8> {
    be_bytes(sequence) + be_bytes(sent_at) + Seq::new((size - 16) as nat, |i: int| 0u8)
}

/// What a datagram of at least sixteen bytes carries: its sequence number and send time.
pub open spec fn header_of(b: Seq<u8>) -> (u64, u64) {
    (be_value(b, 0), be_value(b, 8))
}

proof fn lemma_be_value_of_bytes(v: u64)
    ensures
        ((((v >> 56u64) as u8) as u64) << 56u64 | (((v >> 48u64) as u8) as u64) << 48u64 | (((v
            >> 40u64) as u8) as u64) << 40u64 | (((v >> 32u64) as u8) as u64) << 32u64 | (((v
            >> 24u64) as u8) as u64) << 24u64 | (((v >> 16u64) as u8) as u64) << 16u64 | (((v
            >> 8u64) as u8) as u64) << 8u64 | ((v as u8) as u64)) == v,
{
    assert(((((v >> 56u64) as u8) as u64) << 56u64 | (((v >> 48u64) as u8) as u64) << 48u64 | (((v
        >> 40u64) as u8) as u64) << 40u64 | (((v >> 32u64) as u8) as u64) << 32u64 | (((v
        >> 24u64) as u8) as u64) << 24u64 | (((v >> 16u64) as u8) as u64) << 16u64 | (((v
        >> 8u64) as u8) as u64) << 8u64 | ((v as u8) as u64)) == v) by (bit_vector);
}

/// Decoding an encoded datagram gives back the sequence number and send
/// time it was built from, whatever the padding.
pub proof fn lemma_round_trip(sequence: u64, sent_at: u64, size: nat)
    requires
        size >= 16,
    ensures
        wire(sequence, sent_at, size).len() == size,
        header_of(wire(sequence, sent_at, size)) == (sequence, sent_at),
{
    let w = wire(sequence, sent_at, size);
    lemma_be_value_of_bytes(sequence);
    lemma_be_value_of_bytes(sent_at);
    assert(w[0] == be_bytes(sequence)[0]);
    assert(w.subrange(0, 8) =~= be_bytes(sequence));
    assert(w.subrange(8, 16) =~= be_bytes(sent_at));
    assert(w[0] == w.subrange(0, 8)[0] && w[1] == w.subrange(0, 8)[1] && w[2] == w.subrange(0, 8)[2]
        && w[3] == w.subrange(0, 8)[3] && w[4] == w.subrange(0, 8)[4] && w[5] == w.subrange(0, 8)[5]
        && w[6] == w.subrange(0, 8)[6] && w[7] == w.subrange(0, 8)[7]);
    assert(w[8] == w.subrange(8, 16)[0] && w[9] == w.subrange(8, 16)[1] && w[10] == w.subrange(
        8,
        16,
    )[2] && w[11] == w.subrange(8, 16)[3] && w[12] == w.subrange(8, 16)[4] && w[13]
        == w.subrange(8, 16)[5] && w[14] == w.subrange(8, 16)[6] && w[15] == w.subrange(8, 16)[7]);
}

fn push_be(out: &mut Vec<u8>, v: u64)
    ensures
        final(out)@ == old(out)@ + be_bytes(v),
{
    out.push((v >> 56u64) as u8);
    out.push((v >> 48u64) as u8);
    out.push((v >> 40u64) as u8);
    out.push((v >> 32u64) as u8);
    out.push((v >> 24u64) as u8);
    out.push((v >> 16u64) as u8);
    out.push((v >> 8u64) as u8);
    out.push(v as u8);
    assert(final(out)@ =~= old(out)@ + be_bytes(v));
}

/// Builds a datagram of `size` bytes carrying `sequence` and `sent_at`;
/// a size below the header length is refused.
pub fn encode(sequence: u64, sent_at: u64, size: usize) -> (r: Result<Vec<u8>, CodecError>)
    ensures
        size < HEADER_LEN <==> r is Err,
        r is Err ==> r->Err_0 == CodecError::SizeTooSmall,
        r is Ok ==> r->Ok_0@ == wire(sequence, sent_at, size as nat),
{
    if size < HEADER_LEN {
        return Err(CodecError::SizeTooSmall);
    }
    let mut out: Vec<u8> = Vec::with_capacity(size);
    push_be(&mut out, sequence);
    push_be(&mut out, sent_at);
    let ghost header = out@;
    let mut i: usize = HEADER_LEN;
    while i < size
        invariant
            HEADER_LEN <= i <= size,
            header == be_bytes(sequence) + be_bytes(sent_at),
            out@ == header + Seq::new((i - 16) as nat, |j: int| 0u8),
        decreases size - i,
    {
        out.push(0u8);
        i = i + 1;
        assert(out@ =~= header + Seq::new((i - 16) as nat, |j: int| 0u8));
    }
    Ok(out)
}

/// Reads the sequence number and send time from the first sixteen bytes of
/// `buf`; bytes after them are ignored.
pub fn decode(buf: &[u8]) -> (r: Result<(u64, u64), CodecError>)
    ensures
        buf@.len() < HEADER_LEN <==> r is Err,
        r is Err ==> r->Err_0 == CodecError::MalformedPacket,
        r is Ok ==> r->Ok_0 == header_of(buf@),
{
    if buf.len() < HEADER_LEN {
        return Err(CodecError::MalformedPacket);
    }
    Ok((read_be(buf, 0), read_be(buf, 8)))
}

fn read_be(buf: &[u8], at: usize) -> (r: u64)
    requires
        at + 8 <= buf@.len(),
    ensures
        r == be_value(buf@, at as int),
{
    (buf[at] as u64) << 56u64 | (buf[at + 1] as u64) << 48u64 | (buf[at + 2] as u64) << 40u64 | (
    buf[at + 3] as u64) << 32u64 | (buf[at + 4] as u64) << 24u64 | (buf[at + 5] as u64) << 16u64
        | (buf[at + 6] as u64) << 8u64 | (buf[at + 7] as u64)
}

} // verus!
