//! Wire format: a two-byte big-endian length, then a MessagePack array of
//! integers. The first integer of a packet is its opcode.

use std::io::Cursor;
use vstd::prelude::*;

verus! {

/// Largest body that the two-byte length prefix can announce.
pub const MAX_BODY_LEN: usize = 65535;

/// Why a byte sequence could not be read as a packet.
#[derive(Debug, Clone, Copy, PartialEq, Eq, Structural)]
pub enum FrameError {
    /// The stream holds fewer bytes than the length prefix and the body it announces.
    Truncated,
    /// The body is not an array of integers with as many elements as its header declares.
    Malformed,
}

/// The `n` low-order base-256 digits of `v`, most significant first.
pub open spec fn be_bytes(v: nat, n: nat) -> Seq<u8>
    decreases n,
{
    if n == 0 {
        Seq::empty()
    } else {
        be_bytes(v / 256, (n - 1) as nat).push((v % 256) as u8)
    }
}

/// The number whose base-256 digits, most significant first, are `s`.
pub open spec fn be_nat(s: Seq<u8>) -> nat
    decreases s.len(),
{
    if s.len() == 0 {
        0
    } else {
        be_nat(s.drop_last()) * 256 + s.last() as nat
    }
}

/// MessagePack's shortest encoding of an unsigned integer: a positive fixint
/// below 128, else the marker `0xcc`, `0xcd`, `0xce` or `0xcf` followed by the
/// value in 1, 2, 4 or 8 big-endian bytes.
pub open spec fn uint_encoding(v: u64) -> Seq<u8> {
    if v < 128 {
        seq![v as u8]
    } else if v < 256 {
        seq![0xccu8] + be_bytes(v as nat, 1)
    } else if v < 65536 {
        seq![0xcdu8] + be_bytes(v as nat, 2)
    } else if v < 4294967296 {
        seq![0xceu8] + be_bytes(v as nat, 4)
    } else {
        seq![0xcfu8] + be_bytes(v as nat, 8)
    }
}

/// MessagePack's shortest array header for `n` elements: a fixarray marker
/// below 16, else `0xdc` with two or `0xdd` with four big-endian bytes.
pub open spec fn array_len_encoding(n: u32) -> Seq<u8> {
    if n < 16 {
        seq![(0x90 + n) as u8]
    } else if n < 65536 {
        seq![0xdcu8] + be_bytes(n as nat, 2)
    } else {
        seq![0xddu8] + be_bytes(n as nat, 4)
    }
}

/// The encodings of `values`, one after the other.
pub open spec fn values_encoding(values: Seq<u64>) -> Seq<u8>
    decreases values.len(),
{
    if values.len() == 0 {
        Seq::empty()
    } else {
        values_encoding(values.drop_last()) + uint_encoding(values.last())
    }
}

/// The body of the packet that carries `values`: array header, then elements.
pub open spec fn body_encoding(values: Seq<u64>) -> Seq<u8> {
    array_len_encoding(values.len() as u32) + values_encoding(values)
}

/// Whether `values` can be framed: the body fits the two-byte length prefix.
pub open spec fn fits_frame(values: Seq<u64>) -> bool {
    values.len() <= u32::MAX && body_encoding(values).len() <= MAX_BODY_LEN
}

/// The whole packet for `values`: body length in two big-endian bytes, then the body.
pub open spec fn packet_encoding(values: Seq<u64>) -> Seq<u8> {
    be_bytes(body_encoding(values).len(), 2) + body_encoding(values)
}

/// Appends to `buf` what `rmp::encode::write_uint` writes for `val`: the
/// shortest MessagePack unsigned encoding. Writing into a `Vec` cannot fail.
#[verifier::external_body]
fn write_uint(buf: &mut Vec<u8>, val: u64)
    ensures
        final(buf)@ == old(buf)@ + uint_encoding(val),
{
    let _ = rmp::encode::write_uint(buf, val);
}

/// Appends to `buf` what `rmp::encode::write_array_len` writes for `len`: the
/// shortest MessagePack array header. Writing into a `Vec` cannot fail.
#[verifier::external_body]
fn write_array_len(buf: &mut Vec<u8>, len: u32)
    ensures
        final(buf)@ == old(buf)@ + array_len_encoding(len),
{
    let _ = rmp::encode::write_array_len(buf, len);
}

/// Two placeholder bytes for the length prefix, then the body for `values`.
fn encode_body(values: &[u64]) -> (buf: Vec<u8>)
    requires
        values@.len() <= u32::MAX,
    ensures
        buf@ == seq![0u8, 0u8] + body_encoding(values@),
{
    let mut buf: Vec<u8> = Vec::new();
    buf.push(0);
    buf.push(0);
    write_array_len(&mut buf, values.len() as u32);
    let ghost head = buf@;
    let mut i: usize = 0;
    while i < values.len()
        invariant
            i <= values@.len(),
            head == seq![0u8, 0u8] + array_len_encoding(values@.len() as u32),
            buf@ == head + values_encoding(values@.take(i as int)),
        decreases values@.len() - i,
    {
        write_uint(&mut buf, values[i]);
        proof {
            assert(values@.take(i + 1).drop_last() == values@.take(i as int));
        }
        i += 1;
    }
    proof {
        assert(values@.take(i as int) == values@);
    }
    buf
}

/// Fills in the length prefix of a buffer that holds two bytes and a body.
fn seal(buf: Vec<u8>) -> (packet: Vec<u8>)
    requires
        2 <= buf@.len() <= 2 + MAX_BODY_LEN,
    ensures
        packet@ == be_bytes((buf@.len() - 2) as nat, 2) + buf@.skip(2),
{
    let mut packet = buf;
    let body_len: usize = packet.len() - 2;
    packet.set(0, (body_len / 256) as u8);
    packet.set(1, (body_len % 256) as u8);
    proof {
        reveal_with_fuel(be_bytes, 3);
    }
    packet
}

/// Frames `values` as one packet.
pub fn make_packet(values: &[u64]) -> (packet: Vec<u8>)
    requires
        fits_frame(values@),
    ensures
        packet@ == packet_encoding(values@),
{
    let buf = encode_body(values);
    seal(buf)
}

/// Frames `values` as one packet, or `None` where the body would not fit the
/// two-byte length prefix.
pub fn try_make_packet(values: &[u64]) -> (packet: Option<Vec<u8>>)
    ensures
        match packet {
            Some(p) => fits_frame(values@) && p@ == packet_encoding(values@),
            None => !fits_frame(values@),
        },
{
    if values.len() > MAX_BODY_LEN {
        proof {
            lemma_values_encoding_len(values@);
        }
        return None;
    }
    let buf = encode_body(values);
    if buf.len() - 2 > MAX_BODY_LEN {
        return None;
    }
    Some(seal(buf))
}

/// Every value takes at least one byte and at most nine.
pub proof fn lemma_values_encoding_len(values: Seq<u64>)
    ensures
        values.len() <= values_encoding(values).len() <= 9 * values.len(),
    decreases values.len(),
{
    reveal_with_fuel(be_bytes, 9);
    if values.len() > 0 {
        lemma_values_encoding_len(values.drop_last());
    }
}

/// The number that `u` stands for in two's complement, where `half` is the
/// weight of the sign bit.
pub open spec fn twos_complement(u: nat, half: nat) -> int {
    if u >= half {
        u - 2 * half
    } else {
        u as int
    }
}

/// The `n` bytes after the marker, as a big-endian number, if they are there.
pub open spec fn payload(s: Seq<u8>, n: nat) -> Option<nat> {
    if s.len() >= 1 + n {
        Some(be_nat(s.subrange(1, 1 + n as int)))
    } else {
        None
    }
}

/// What a MessagePack reader that wants an `i64` finds at the start of `s`:
/// the value and the number of bytes it takes. Any integer format is accepted
/// (fixint, `0xcc`..`0xcf` unsigned, `0xd0`..`0xd3` signed); `None` where the
/// marker is no integer, bytes are missing, or the value exceeds `i64::MAX`.
pub open spec fn int_decoding(s: Seq<u8>) -> Option<(i64, nat)> {
    if s.len() == 0 {
        None
    } else if s[0] < 0x80 {
        Some((s[0] as i64, 1))
    } else if s[0] >= 0xe0 {
        Some(((s[0] - 256) as i64, 1))
    } else if s[0] == 0xcc || s[0] == 0xcd || s[0] == 0xce || s[0] == 0xcf {
        let n: nat = if s[0] == 0xcc {
            1
        } else if s[0] == 0xcd {
            2
        } else if s[0] == 0xce {
            4
        } else {
            8
        };
        match payload(s, n) {
            Some(u) => if u <= i64::MAX { Some((u as i64, 1 + n)) } else { None },
            None => None,
        }
    } else if s[0] == 0xd0 {
        match payload(s, 1) {
            Some(u) => Some((twos_complement(u, 0x80) as i64, 2)),
            None => None,
        }
    } else if s[0] == 0xd1 {
        match payload(s, 2) {
            Some(u) => Some((twos_complement(u, 0x8000) as i64, 3)),
            None => None,
        }
    } else if s[0] == 0xd2 {
        match payload(s, 4) {
            Some(u) => Some((twos_complement(u, 0x8000_0000) as i64, 5)),
            None => None,
        }
    } else if s[0] == 0xd3 {
        match payload(s, 8) {
            Some(u) => Some((twos_complement(u, 0x8000_0000_0000_0000) as i64, 9)),
            None => None,
        }
    } else {
        None
    }
}

/// What a MessagePack reader finds as an array header at the start of `s`:
/// the element count and the number of bytes the header takes; `None` where
/// the marker is no array marker or bytes are missing.
pub open spec fn array_len_decoding(s: Seq<u8>) -> Option<(u32, nat)> {
    if s.len() == 0 {
        None
    } else if 0x90 <= s[0] <= 0x9f {
        Some(((s[0] - 0x90) as u32, 1))
    } else if s[0] == 0xdc {
        match payload(s, 2) {
            Some(u) => Some((u as u32, 3)),
            None => None,
        }
    } else if s[0] == 0xdd {
        match payload(s, 4) {
            Some(u) => Some((u as u32, 5)),
            None => None,
        }
    } else {
        None
    }
}

/// `count` integers read one after the other from the start of `s`.
pub open spec fn ints_decoding(s: Seq<u8>, count: nat) -> Option<Seq<i64>>
    decreases count,
{
    if count == 0 {
        Some(Seq::empty())
    } else {
        match int_decoding(s) {
            None => None,
            Some((v, n)) => match ints_decoding(s.skip(n as int), (count - 1) as nat) {
                None => None,
                Some(rest) => Some(seq![v] + rest),
            },
        }
    }
}

/// The integers that a packet body carries: an array header, then as many
/// integers as it declares. Bytes after the last element are not looked at.
pub open spec fn body_decoding(s: Seq<u8>) -> Option<Seq<i64>> {
    match array_len_decoding(s) {
        None => None,
        Some((count, n)) => ints_decoding(s.skip(n as int), count as nat),
    }
}

/// Reads one integer at `pos` with `rmp::decode::read_int::<i64, _>` on a
/// cursor over `source`: the value and the position behind it, or `None`
/// where `read_int` fails (no integer marker, missing bytes, out of range).
#[verifier::external_body]
fn read_int_at(source: &[u8], pos: usize) -> (r: Option<(i64, usize)>)
    requires
        pos <= source@.len(),
    ensures
        match r {
            Some((v, next)) => pos <= next && int_decoding(source@.skip(pos as int)) == Some(
                (v, (next - pos) as nat),
            ),
            None => int_decoding(source@.skip(pos as int)) is None,
        },
{
    let mut cursor = Cursor::new(source);
    cursor.set_position(pos as u64);
    match rmp::decode::read_int::<i64, _>(&mut cursor) {
        Ok(v) => Some((v, cursor.position() as usize)),
        Err(_) => None,
    }
}

/// Reads an array header at `pos` with `rmp::decode::read_array_len` on a
/// cursor over `source`: the element count and the position behind the
/// header, or `None` where `read_array_len` fails.
#[verifier::external_body]
fn read_array_len_at(source: &[u8], pos: usize) -> (r: Option<(u32, usize)>)
    requires
        pos <= source@.len(),
    ensures
        match r {
            Some((count, next)) => pos <= next && array_len_decoding(source@.skip(pos as int))
                == Some((count, (next - pos) as nat)),
            None => array_len_decoding(source@.skip(pos as int)) is None,
        },
{
    let mut cursor = Cursor::new(source);
    cursor.set_position(pos as u64);
    match rmp::decode::read_array_len(&mut cursor) {
        Ok(count) => Some((count, cursor.position() as usize)),
        Err(_) => None,
    }
}

/// Decodes a packet body into its integers.
pub fn decode_packet(source: &[u8]) -> (r: Result<Vec<i64>, FrameError>)
    ensures
        match r {
            Ok(values) => body_decoding(source@) == Some(values@),
            Err(e) => e == FrameError::Malformed && body_decoding(source@) is None,
        },
{
    let (count, start) = match read_array_len_at(source, 0) {
        Some(header) => header,
        None => {
            return Err(FrameError::Malformed);
        },
    };
    proof {
        assert(source@.skip(0) == source@);
    }
    let mut result: Vec<i64> = Vec::new();
    let mut pos: usize = start;
    let mut i: u32 = 0;
    while i < count
        invariant
            i <= count,
            pos <= source@.len(),
            body_decoding(source@) == match ints_decoding(
                source@.skip(pos as int),
                (count - i) as nat,
            ) {
                Some(rest) => Some(result@ + rest),
                None => None,
            },
        decreases count - i,
    {
        match read_int_at(source, pos) {
            Some((v, next)) => {
                proof {
                    let here = source@.skip(pos as int);
                    let n = next - pos;
                    assert(here.skip(n) == source@.skip(next as int));
                }
                result.push(v);
                pos = next;
            },
            None => {
                return Err(FrameError::Malformed);
            },
        }
        i += 1;
    }
    Ok(result)
}

/// The body length that the first two bytes of `stream` announce.
pub open spec fn announced_len(stream: Seq<u8>) -> nat
    recommends
        stream.len() >= 2,
{
    stream[0] as nat * 256 + stream[1] as nat
}

/// Whether `stream` holds a whole packet at its start.
pub open spec fn holds_frame(stream: Seq<u8>) -> bool {
    stream.len() >= 2 && stream.len() >= 2 + announced_len(stream)
}

/// The body length that a two-byte prefix announces.
pub fn body_len(hi: u8, lo: u8) -> (n: usize)
    ensures
        n == hi as nat * 256 + lo as nat,
        n <= MAX_BODY_LEN,
{
    (hi as usize) * 256 + (lo as usize)
}

/// Cuts the first packet off `stream`: its body and the number of bytes the
/// packet takes, which is two more than the announced length whatever the
/// body holds.
pub fn split_frame(stream: &[u8]) -> (r: Result<(&[u8], usize), FrameError>)
    ensures
        match r {
            Ok((body, consumed)) => {
                &&& holds_frame(stream@)
                &&& consumed == 2 + announced_len(stream@)
                &&& body@ == stream@.subrange(2, consumed as int)
            },
            Err(e) => e == FrameError::Truncated && !holds_frame(stream@),
        },
{
    if stream.len() < 2 {
        return Err(FrameError::Truncated);
    }
    let len = body_len(stream[0], stream[1]);
    if stream.len() - 2 < len {
        return Err(FrameError::Truncated);
    }
    let body = vstd::slice::slice_subrange(stream, 2, 2 + len);
    Ok((body, 2 + len))
}

/// 256 to the power `n`.
pub open spec fn pow256(n: nat) -> nat
    decreases n,
{
    if n == 0 {
        1
    } else {
        256 * pow256((n - 1) as nat)
    }
}

/// Reading back `n` big-endian bytes of a number below `256^n` gives the number.
pub proof fn lemma_be_round_trip(v: nat, n: nat)
    requires
        v < pow256(n),
    ensures
        be_bytes(v, n).len() == n,
        be_nat(be_bytes(v, n)) == v,
    decreases n,
{
    if n > 0 {
        let rest = be_bytes(v / 256, (n - 1) as nat);
        lemma_be_round_trip(v / 256, (n - 1) as nat);
        assert(be_bytes(v, n).drop_last() == rest);
    }
}

/// What the values in `values` decode to: the same numbers as `i64`.
pub open spec fn as_signed(values: Seq<u64>) -> Seq<i64> {
    Seq::new(values.len(), |i: int| values[i] as i64)
}

/// An encoded unsigned integer up to `i64::MAX` reads back as itself,
/// whatever follows it.
pub proof fn lemma_uint_round_trip(v: u64, tail: Seq<u8>)
    requires
        v <= i64::MAX,
    ensures
        int_decoding(uint_encoding(v) + tail) == Some((v as i64, uint_encoding(v).len())),
        1 <= uint_encoding(v).len() <= 9,
{
    let n: nat = if v < 128 {
        0
    } else if v < 256 {
        1
    } else if v < 65536 {
        2
    } else if v < 4294967296 {
        4
    } else {
        8
    };
    let s = uint_encoding(v) + tail;
    reveal_with_fuel(pow256, 9);
    if n > 0 {
        lemma_be_round_trip(v as nat, n);
        assert(s.subrange(1, 1 + n as int) == be_bytes(v as nat, n));
    }
}

/// An encoded array header reads back as the same count, whatever follows it.
pub proof fn lemma_array_len_round_trip(count: u32, tail: Seq<u8>)
    ensures
        array_len_decoding(array_len_encoding(count) + tail) == Some(
            (count, array_len_encoding(count).len()),
        ),
{
    let s = array_len_encoding(count) + tail;
    reveal_with_fuel(pow256, 5);
    if count >= 65536 {
        lemma_be_round_trip(count as nat, 4);
        assert(s.subrange(1, 5) == be_bytes(count as nat, 4));
    } else if count >= 16 {
        lemma_be_round_trip(count as nat, 2);
        assert(s.subrange(1, 3) == be_bytes(count as nat, 2));
    }
}

/// The encoding of a sequence starts with the encoding of its first value.
pub proof fn lemma_values_encoding_first(values: Seq<u64>)
    requires
        values.len() > 0,
    ensures
        values_encoding(values) == uint_encoding(values[0]) + values_encoding(values.skip(1)),
    decreases values.len(),
{
    if values.len() == 1 {
        assert(values.drop_last() == Seq::<u64>::empty());
        assert(values.skip(1) == Seq::<u64>::empty());
    } else {
        lemma_values_encoding_first(values.drop_last());
        assert(values.drop_last().skip(1) == values.skip(1).drop_last());
    }
}

/// Encoded values up to `i64::MAX` read back as the same numbers, whatever
/// follows them.
pub proof fn lemma_values_round_trip(values: Seq<u64>, tail: Seq<u8>)
    requires
        forall|i: int| 0 <= i < values.len() ==> values[i] <= i64::MAX,
    ensures
        ints_decoding(values_encoding(values) + tail, values.len()) == Some(as_signed(values)),
    decreases values.len(),
{
    if values.len() > 0 {
        let first = uint_encoding(values[0]);
        let rest = values.skip(1);
        let after = values_encoding(rest) + tail;
        lemma_values_encoding_first(values);
        lemma_uint_round_trip(values[0], after);
        lemma_values_round_trip(rest, tail);
        assert(values_encoding(values) + tail == first + after);
        assert((first + after).skip(first.len() as int) == after);
    }
}

/// Decoding an encoded body gives back the integers that went in, for every
/// sequence of values up to `i64::MAX` (so for all below `2^53`), whatever
/// bytes follow the body.
pub proof fn lemma_body_round_trip(values: Seq<u64>, tail: Seq<u8>)
    requires
        values.len() <= u32::MAX,
        forall|i: int| 0 <= i < values.len() ==> values[i] <= i64::MAX,
    ensures
        body_decoding(body_encoding(values) + tail) == Some(as_signed(values)),
{
    let header = array_len_encoding(values.len() as u32);
    let after = values_encoding(values) + tail;
    lemma_array_len_round_trip(values.len() as u32, after);
    lemma_values_round_trip(values, tail);
    assert(body_encoding(values) + tail == header + after);
    assert((header + after).skip(header.len() as int) == after);
}

/// A framed packet, followed by anything, splits into exactly its body.
pub proof fn lemma_packet_frames_body(values: Seq<u64>, tail: Seq<u8>)
    requires
        fits_frame(values),
    ensures
        holds_frame(packet_encoding(values) + tail),
        announced_len(packet_encoding(values) + tail) == body_encoding(values).len(),
        (packet_encoding(values) + tail).subrange(2, 2 + body_encoding(values).len() as int)
            == body_encoding(values),
{
    reveal_with_fuel(be_bytes, 3);
}

/// Encoding then decoding gives back the integers that went in: a packet
/// for values up to `i64::MAX`, followed by anything, holds a whole frame
/// whose body decodes to those values.
pub proof fn lemma_packet_round_trip(values: Seq<u64>, tail: Seq<u8>)
    requires
        fits_frame(values),
        forall|i: int| 0 <= i < values.len() ==> values[i] <= i64::MAX,
    ensures
        holds_frame(packet_encoding(values) + tail),
        body_decoding(
            (packet_encoding(values) + tail).subrange(
                2,
                2 + announced_len(packet_encoding(values) + tail) as int,
            ),
        ) == Some(as_signed(values)),
{
    lemma_packet_frames_body(values, tail);
    lemma_body_round_trip(values, Seq::empty());
}

} // verus!
