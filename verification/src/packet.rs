//! Packet framing: the size header that precedes every packet exchanged with
//! a port opened with the `{:packet, N}` option.
//!
//! A packet is an `N`-byte big-endian length followed by that many bytes of
//! payload.
use byteorder::{BigEndian, ByteOrder};
use vstd::prelude::*;

verus! {

/// The size of a packet as sent/received by a PacketReceiver or PacketSender
///
/// You should pick the PacketSize that corresponds to the `{:packet, N}` option
/// you are opening the port with in Erlang/Elixir.
#[derive(Clone, Copy)]
pub enum PacketSize {
    One,
    Two,
    Four,
}

impl PacketSize {
    /// Number of bytes in the size header of a packet.
    pub open spec fn width(self) -> nat {
        match self {
            PacketSize::One => 1,
            PacketSize::Two => 2,
            PacketSize::Four => 4,
        }
    }

    pub(crate) fn header_len(&self) -> (n: usize)
        ensures
            n == self.width(),
    {
        match self {
            PacketSize::One => 1,
            PacketSize::Two => 2,
            PacketSize::Four => 4,
        }
    }
}

/// `256^w`: the number of distinct values a `w`-byte header can carry.
pub open spec fn byte_range(w: nat) -> nat
    decreases w,
{
    if w == 0 {
        1
    } else {
        256 * byte_range((w - 1) as nat)
    }
}

/// The `w` low-order bytes of `value`, most significant first.
pub open spec fn be_bytes(value: nat, w: nat) -> Seq<u8>
    decreases w,
{
    if w == 0 {
        seq![]
    } else {
        be_bytes(value / 256, (w - 1) as nat).push((value % 256) as u8)
    }
}

/// The number that `bytes` denote when read most significant byte first.
pub open spec fn be_value(bytes: Seq<u8>) -> nat
    decreases bytes.len(),
{
    if bytes.len() == 0 {
        0
    } else {
        be_value(bytes.drop_last()) * 256 + bytes.last() as nat
    }
}

/// The size header written in front of a payload of `len` bytes.
///
/// Lengths that do not fit the header are truncated to their low-order bytes.
pub open spec fn header_bytes(packet_size: PacketSize, len: nat) -> Seq<u8> {
    be_bytes(len, packet_size.width())
}

/// The bytes of a whole packet carrying `data`.
pub open spec fn packet_bytes(packet_size: PacketSize, data: Seq<u8>) -> Seq<u8> {
    header_bytes(packet_size, data.len()) + data
}

/// Reads one packet off the front of `stream`: its payload and what follows,
/// or `None` when the stream ends before the packet does.
pub open spec fn split_packet(packet_size: PacketSize, stream: Seq<u8>) -> Option<(Seq<u8>, Seq<u8>)> {
    let w = packet_size.width();
    if stream.len() < w {
        None
    } else {
        let n = be_value(stream.take(w as int));
        if stream.len() < w + n {
            None
        } else {
            Some((stream.subrange(w as int, (w + n) as int), stream.skip((w + n) as int)))
        }
    }
}

/// The bytes of the packets carrying each of `payloads`, one after the other,
/// in order.
pub open spec fn packet_stream(packet_size: PacketSize, payloads: Seq<Seq<u8>>) -> Seq<u8>
    decreases payloads.len(),
{
    if payloads.len() == 0 {
        Seq::empty()
    } else {
        packet_bytes(packet_size, payloads[0]) + packet_stream(packet_size, payloads.skip(1))
    }
}

/// Calls `byteorder::BigEndian::read_u16`: the first two bytes of `buf`, most
/// significant first.
#[verifier::external_body]
fn be_read_u16(buf: &[u8]) -> (n: u16)
    requires
        buf@.len() >= 2,
    ensures
        n == buf@[0] * 256 + buf@[1],
{
    BigEndian::read_u16(buf)
}

/// Calls `byteorder::BigEndian::read_u32`: the first four bytes of `buf`, most
/// significant first.
#[verifier::external_body]
fn be_read_u32(buf: &[u8]) -> (n: u32)
    requires
        buf@.len() >= 4,
    ensures
        n == ((buf@[0] * 256 + buf@[1]) * 256 + buf@[2]) * 256 + buf@[3],
{
    BigEndian::read_u32(buf)
}

/// Calls `byteorder::BigEndian::write_u16` on a two-byte buffer: `n`, most
/// significant byte first.
#[verifier::external_body]
pub(crate) fn be_write_u16(n: u16) -> (buf: [u8; 2])
    ensures
        buf@ == seq![(n / 256) as u8, (n % 256) as u8],
{
    let mut buf = [0u8; 2];
    BigEndian::write_u16(&mut buf, n);
    buf
}

/// Calls `byteorder::BigEndian::write_u32` on a four-byte buffer: `n`, most
/// significant byte first.
#[verifier::external_body]
fn be_write_u32(n: u32) -> (buf: [u8; 4])
    ensures
        buf@ == seq![
            (n / 0x100_0000) as u8,
            ((n / 0x1_0000) % 256) as u8,
            ((n / 256) % 256) as u8,
            (n % 256) as u8,
        ],
{
    let mut buf = [0u8; 4];
    BigEndian::write_u32(&mut buf, n);
    buf
}

/// Encodes the size header for a payload of `len` bytes.
///
/// No check is made that `len` fits the header: only its low-order bytes
/// are written, as a cast to the header's integer type keeps them.
pub fn encode_size(packet_size: PacketSize, len: usize) -> (header: Vec<u8>)
    ensures
        header@ == header_bytes(packet_size, len as nat),
{
    reveal_with_fuel(be_bytes, 5);
    match packet_size {
        PacketSize::One => {
            assert(len as u8 == len % 256) by (bit_vector);
            let b = len as u8;
            vec![b]
        },
        PacketSize::Two => {
            assert(len as u16 == len % 0x1_0000) by (bit_vector);
            let n = len as u16;
            let buf = be_write_u16(n);
            proof {
                lemma_div_mod_chain(len as nat);
            }
            vec![buf[0], buf[1]]
        },
        PacketSize::Four => {
            assert((len as u32) as u64 == (len as u64) % 0x1_0000_0000) by (bit_vector);
            let n = len as u32;
            let buf = be_write_u32(n);
            proof {
                lemma_div_mod_chain(len as nat);
            }
            vec![buf[0], buf[1], buf[2], buf[3]]
        },
    }
}

/// Decodes a size header.
pub fn decode_size(packet_size: PacketSize, header: &[u8]) -> (len: usize)
    requires
        header@.len() == packet_size.width(),
    ensures
        len == be_value(header@),
{
    reveal_with_fuel(be_value, 5);
    let ghost h = header@;
    match packet_size {
        PacketSize::One => {
            assert(h.drop_last() =~= seq![]);
            header[0] as usize
        },
        PacketSize::Two => {
            assert(h.drop_last().drop_last() =~= seq![]);
            assert(h.drop_last().last() == h[0]);
            be_read_u16(header) as usize
        },
        PacketSize::Four => {
            assert(h.drop_last().drop_last().drop_last().drop_last() =~= seq![]);
            assert(h.drop_last().last() == h[2]);
            assert(h.drop_last().drop_last().last() == h[1]);
            assert(h.drop_last().drop_last().drop_last().last() == h[0]);
            be_read_u32(header) as usize
        },
    }
}

/// `be_bytes` keeps exactly `w` bytes, and reading them back gives `value`
/// reduced modulo `256^w`.
pub proof fn lemma_be_value_of_be_bytes(value: nat, w: nat)
    ensures
        be_bytes(value, w).len() == w,
        be_value(be_bytes(value, w)) == value % byte_range(w),
    decreases w,
{
    if w > 0 {
        let w1 = (w - 1) as nat;
        lemma_be_value_of_be_bytes(value / 256, w1);
        lemma_byte_range_positive(w1);
        let bytes = be_bytes(value, w);
        assert(bytes.drop_last() =~= be_bytes(value / 256, w1));
        vstd::arithmetic::div_mod::lemma_mod_breakdown(value as int, 256, byte_range(w1) as int);
        assert(byte_range(w) == 256 * byte_range(w1));
        assert(value % byte_range(w) == 256 * ((value / 256) % byte_range(w1)) + value % 256);
        assert(be_value(bytes) == be_value(bytes.drop_last()) * 256 + (value % 256));
    }
}

/// `256^w` is positive.
pub proof fn lemma_byte_range_positive(w: nat)
    ensures
        byte_range(w) > 0,
    decreases w,
{
    if w > 0 {
        lemma_byte_range_positive((w - 1) as nat);
    }
}

/// Any `w` bytes denote a number below `256^w`, and writing that number back
/// out in `w` bytes reproduces them.
pub proof fn lemma_be_bytes_of_be_value(bytes: Seq<u8>)
    ensures
        be_value(bytes) < byte_range(bytes.len()),
        be_bytes(be_value(bytes), bytes.len()) == bytes,
    decreases bytes.len(),
{
    if bytes.len() > 0 {
        let init = bytes.drop_last();
        lemma_be_bytes_of_be_value(init);
        let v = be_value(bytes);
        let q = be_value(init);
        let r = bytes.last() as int;
        assert(v == q * 256 + r);
        vstd::arithmetic::div_mod::lemma_fundamental_div_mod_converse(v as int, 256, q as int, r);
        assert(be_bytes(v, bytes.len()) =~= be_bytes(q, init.len()).push(r as u8));
        assert(bytes =~= init.push(bytes.last()));
        assert(byte_range(bytes.len()) == 256 * byte_range(init.len()));
        assert(q * 256 + r < 256 * byte_range(init.len())) by (nonlinear_arith)
            requires
                q < byte_range(init.len()),
                0 <= r < 256,
        ;
    }
}

/// The header ranges of the three packet sizes: `2^8`, `2^16` and `2^32`.
pub proof fn lemma_header_ranges()
    ensures
        byte_range(PacketSize::One.width()) == 0x100,
        byte_range(PacketSize::Two.width()) == 0x1_0000,
        byte_range(PacketSize::Four.width()) == 0x1_0000_0000,
{
    reveal_with_fuel(byte_range, 5);
}

/// A size header is `packet_size.width()` bytes long, and reading it back
/// gives the length it was written for, modulo the header's range: the
/// length itself whenever it fits.
pub proof fn law_size_round_trip(packet_size: PacketSize, len: nat)
    ensures
        header_bytes(packet_size, len).len() == packet_size.width(),
        be_value(header_bytes(packet_size, len)) == len % byte_range(packet_size.width()),
        len < byte_range(packet_size.width()) ==> be_value(header_bytes(packet_size, len)) == len,
{
    lemma_be_value_of_be_bytes(len, packet_size.width());
    if len < byte_range(packet_size.width()) {
        vstd::arithmetic::div_mod::lemma_small_mod(len, byte_range(packet_size.width()));
    }
}

/// Every header of the right width is the header of exactly the length it
/// denotes: decoding then encoding gives the header back.
pub proof fn law_header_round_trip(packet_size: PacketSize, header: Seq<u8>)
    requires
        header.len() == packet_size.width(),
    ensures
        be_value(header) < byte_range(packet_size.width()),
        header_bytes(packet_size, be_value(header)) == header,
{
    lemma_be_bytes_of_be_value(header);
}

/// A packet written for `data` reads back as `data`, leaving whatever followed
/// it in the stream untouched, whenever the length of `data` fits the header.
pub proof fn law_packet_round_trip(packet_size: PacketSize, data: Seq<u8>, rest: Seq<u8>)
    requires
        data.len() < byte_range(packet_size.width()),
    ensures
        split_packet(packet_size, packet_bytes(packet_size, data) + rest) == Some((data, rest)),
{
    let w = packet_size.width();
    let header = header_bytes(packet_size, data.len());
    law_size_round_trip(packet_size, data.len());
    let stream = packet_bytes(packet_size, data) + rest;
    assert(stream.take(w as int) =~= header);
    assert(stream.subrange(w as int, (w + data.len()) as int) =~= data);
    assert(stream.skip((w + data.len()) as int) =~= rest);
}

/// Framing is unambiguous: when one stream starts both with the packet for
/// `sent` and with the packet for `received` (what a receiver took from a
/// stream a sender wrote), the two payloads are the same and so is what
/// follows them.
pub proof fn law_packet_framing_unambiguous(
    packet_size: PacketSize,
    sent: Seq<u8>,
    sent_rest: Seq<u8>,
    received: Seq<u8>,
    received_rest: Seq<u8>,
)
    requires
        sent.len() < byte_range(packet_size.width()),
        received.len() < byte_range(packet_size.width()),
        packet_bytes(packet_size, sent) + sent_rest == packet_bytes(packet_size, received)
            + received_rest,
    ensures
        received == sent,
        received_rest == sent_rest,
{
    law_packet_round_trip(packet_size, sent, sent_rest);
    law_packet_round_trip(packet_size, received, received_rest);
}

/// Two packets written one after the other read back in order.
pub proof fn law_packets_read_in_order(packet_size: PacketSize, first: Seq<u8>, second: Seq<u8>)
    requires
        first.len() < byte_range(packet_size.width()),
        second.len() < byte_range(packet_size.width()),
    ensures
        split_packet(packet_size, packet_bytes(packet_size, first) + packet_bytes(packet_size, second))
            == Some((first, packet_bytes(packet_size, second))),
        split_packet(packet_size, packet_bytes(packet_size, second)) == Some((second, Seq::<u8>::empty())),
{
    law_packet_round_trip(packet_size, first, packet_bytes(packet_size, second));
    law_packet_round_trip(packet_size, second, Seq::<u8>::empty());
    assert(packet_bytes(packet_size, second) + Seq::<u8>::empty() =~= packet_bytes(packet_size, second));
}

/// A size header read off the front of a stream gives back the size it was
/// written for, whenever the size fits the header, and leaves what followed
/// it untouched.
pub proof fn law_size_header_read_back(packet_size: PacketSize, size: nat, rest: Seq<u8>)
    requires
        size < byte_range(packet_size.width()),
    ensures
        (header_bytes(packet_size, size) + rest).len() >= packet_size.width(),
        be_value((header_bytes(packet_size, size) + rest).take(packet_size.width() as int)) == size,
        (header_bytes(packet_size, size) + rest).skip(packet_size.width() as int) == rest,
{
    law_size_round_trip(packet_size, size);
    let stream = header_bytes(packet_size, size) + rest;
    assert(stream.take(packet_size.width() as int) =~= header_bytes(packet_size, size));
    assert(stream.skip(packet_size.width() as int) =~= rest);
}

/// A stream of packets reads back one packet at a time, in the order the
/// packets were written: once the first `i` packets are taken off, the next
/// read gives the payload of packet `i` and leaves the packets after it.
/// When all are taken, nothing is left.
pub proof fn law_packet_stream_in_order(packet_size: PacketSize, payloads: Seq<Seq<u8>>, i: int)
    requires
        forall|j: int| 0 <= j < payloads.len() ==> #[trigger] payloads[j].len() < byte_range(
            packet_size.width(),
        ),
        0 <= i <= payloads.len(),
    ensures
        i < payloads.len() ==> split_packet(packet_size, packet_stream(packet_size, payloads.skip(i)))
            == Some((payloads[i], packet_stream(packet_size, payloads.skip(i + 1)))),
        i == payloads.len() ==> packet_stream(packet_size, payloads.skip(i)).len() == 0,
{
    if i < payloads.len() {
        let tail = payloads.skip(i);
        assert(tail[0] == payloads[i]);
        assert(tail.skip(1) =~= payloads.skip(i + 1));
        law_packet_round_trip(
            packet_size,
            payloads[i],
            packet_stream(packet_size, payloads.skip(i + 1)),
        );
    } else {
        assert(payloads.skip(i).len() == 0);
    }
}

/// Facts on repeated division by 256 used to unfold `be_bytes`.
proof fn lemma_div_mod_chain(v: nat)
    ensures
        (v % 0x1_0000) / 256 == (v / 256) % 256,
        (v % 0x1_0000) % 256 == v % 256,
        (v % 0x1_0000_0000) / 0x100_0000 == ((v / 256) / 256 / 256) % 256,
        ((v % 0x1_0000_0000) / 0x1_0000) % 256 == ((v / 256) / 256) % 256,
        ((v % 0x1_0000_0000) / 256) % 256 == (v / 256) % 256,
        (v % 0x1_0000_0000) % 256 == v % 256,
{
    assert((v % 0x1_0000) / 256 == (v / 256) % 256) by (nonlinear_arith);
    assert((v % 0x1_0000) % 256 == v % 256) by (nonlinear_arith);
    assert((v % 0x1_0000_0000) / 0x100_0000 == ((v / 256) / 256 / 256) % 256) by (nonlinear_arith);
    assert(((v % 0x1_0000_0000) / 0x1_0000) % 256 == ((v / 256) / 256) % 256) by (nonlinear_arith);
    assert(((v % 0x1_0000_0000) / 256) % 256 == (v / 256) % 256) by (nonlinear_arith);
    assert((v % 0x1_0000_0000) % 256 == v % 256) by (nonlinear_arith);
}

} // verus!
