//! Wire codec for the fixed 10-byte frame.
//!
//! Every message on the wire is exactly 10 bytes. A position frame carries a
//! record `(id: i32, (x, y, z): (i16, i16, i16))`, each field little-endian.
//! A latency-report frame carries a `u64` millisecond duration in its first
//! 8 bytes (little-endian); the last 2 bytes are zero. The `id` field is
//! overloaded by the protocol: on the init frame it is the client's assigned
//! identity and `(x, z)` carry the cycle count and group size; in steady
//! state `id == 0` and `id == -1` act as continue/terminate sentinels. The
//! codec itself is phase-agnostic: it maps records to bytes and back,
//! exactly, for every representable value.

use vstd::prelude::*;
use vstd::arithmetic::div_mod::{
    lemma_fundamental_div_mod, lemma_div_denominator, lemma_mod_division_less_than_divisor,
    lemma_div_is_ordered, lemma_small_mod, lemma_fundamental_div_mod_converse,
};

verus! {

/// Value of two little-endian bytes, as a non-negative integer.
pub open spec fn le2(b0: u8, b1: u8) -> int {
    b0 + 256 * b1
}

/// Value of four little-endian bytes.
pub open spec fn le4(b0: u8, b1: u8, b2: u8, b3: u8) -> int {
    b0 + 256 * b1 + 65536 * b2 + 16777216 * b3
}

/// Value of eight little-endian bytes.
pub open spec fn le8(b0: u8, b1: u8, b2: u8, b3: u8, b4: u8, b5: u8, b6: u8, b7: u8) -> int {
    b0 + 256 * b1 + 65536 * b2 + 16777216 * b3 + 4294967296 * b4 + 1099511627776 * b5
        + 281474976710656 * b6 + 72057594037927936 * b7
}

/// Two's-complement reading of an unsigned 16-bit value.
pub open spec fn as_i16(v: int) -> int {
    if v < 32768 {
        v
    } else {
        v - 65536
    }
}

/// Two's-complement reading of an unsigned 32-bit value.
pub open spec fn as_i32(v: int) -> int {
    if v < 2147483648 {
        v
    } else {
        v - 4294967296
    }
}

/// Unsigned 16-bit representation of a signed 16-bit value.
pub open spec fn rep16(v: int) -> int {
    if v >= 0 {
        v
    } else {
        v + 65536
    }
}

/// Unsigned 32-bit representation of a signed 32-bit value.
pub open spec fn rep32(v: int) -> int {
    if v >= 0 {
        v
    } else {
        v + 4294967296
    }
}

/// Little-endian bytes of a value in `[0, 2^16)`.
pub open spec fn enc2(v: int) -> Seq<u8> {
    seq![(v % 256) as u8, ((v / 256) % 256) as u8]
}

/// Little-endian bytes of a value in `[0, 2^32)`.
pub open spec fn enc4(v: int) -> Seq<u8> {
    seq![
        (v % 256) as u8,
        ((v / 256) % 256) as u8,
        ((v / 65536) % 256) as u8,
        ((v / 16777216) % 256) as u8,
    ]
}

/// Little-endian bytes of a value in `[0, 2^64)`.
pub open spec fn enc8(v: int) -> Seq<u8> {
    seq![
        (v % 256) as u8,
        ((v / 256) % 256) as u8,
        ((v / 65536) % 256) as u8,
        ((v / 16777216) % 256) as u8,
        ((v / 4294967296) % 256) as u8,
        ((v / 1099511627776) % 256) as u8,
        ((v / 281474976710656) % 256) as u8,
        ((v / 72057594037927936) % 256) as u8,
    ]
}

/// The 10 wire bytes of a position record.
pub open spec fn frame_of(value: (i32, (i16, i16, i16))) -> Seq<u8> {
    enc4(rep32(value.0 as int)) + enc2(rep16((value.1).0 as int))
        + enc2(rep16((value.1).1 as int)) + enc2(rep16((value.1).2 as int))
}

/// The position record held by 10 wire bytes.
pub open spec fn rec_of(b: Seq<u8>) -> (i32, (i16, i16, i16))
    recommends
        b.len() == 10,
{
    (
        as_i32(le4(b[0], b[1], b[2], b[3])) as i32,
        (
            as_i16(le2(b[4], b[5])) as i16,
            as_i16(le2(b[6], b[7])) as i16,
            as_i16(le2(b[8], b[9])) as i16,
        ),
    )
}

/// The duration held by a latency-report frame.
pub open spec fn time_of(b: Seq<u8>) -> u64
    recommends
        b.len() == 10,
{
    le8(b[0], b[1], b[2], b[3], b[4], b[5], b[6], b[7]) as u64
}

/// The 10 wire bytes of a latency report: 8 value bytes, then 2 zero bytes.
pub open spec fn latency_frame_of(t: u64) -> Seq<u8> {
    enc8(t as int) + seq![0u8, 0u8]
}

/// Reading back the little-endian bytes of a 16-bit value yields the value.
proof fn lemma_enc2_le2(v: int)
    requires
        0 <= v < 65536,
    ensures
        enc2(v).len() == 2,
        le2(enc2(v)[0], enc2(v)[1]) == v,
{
    lemma_fundamental_div_mod(v, 256);
    lemma_mod_division_less_than_divisor(v, 256);
    lemma_div_is_ordered(v, 65535, 256);
    lemma_fundamental_div_mod_converse(65535, 256, 255, 255);
    lemma_small_mod((v / 256) as nat, 256);
}

/// Reading back the little-endian bytes of a 32-bit value yields the value.
proof fn lemma_enc4_le4(v: int)
    requires
        0 <= v < 4294967296,
    ensures
        enc4(v).len() == 4,
        le4(enc4(v)[0], enc4(v)[1], enc4(v)[2], enc4(v)[3]) == v,
{
    lemma_fundamental_div_mod(v, 256);
    lemma_fundamental_div_mod(v / 256, 256);
    lemma_fundamental_div_mod(v / 65536, 256);
    lemma_div_denominator(v, 256, 256);
    lemma_div_denominator(v, 65536, 256);
    lemma_mod_division_less_than_divisor(v, 256);
    lemma_mod_division_less_than_divisor(v / 256, 256);
    lemma_mod_division_less_than_divisor(v / 65536, 256);
    lemma_div_is_ordered(v, 4294967295, 16777216);
    lemma_fundamental_div_mod_converse(4294967295, 16777216, 255, 16777215);
    lemma_small_mod((v / 16777216) as nat, 256);
}

/// Reading back the little-endian bytes of a 64-bit value yields the value.
proof fn lemma_enc8_le8(v: int)
    requires
        0 <= v < 18446744073709551616,
    ensures
        enc8(v).len() == 8,
        le8(
            enc8(v)[0],
            enc8(v)[1],
            enc8(v)[2],
            enc8(v)[3],
            enc8(v)[4],
            enc8(v)[5],
            enc8(v)[6],
            enc8(v)[7],
        ) == v,
{
    lemma_fundamental_div_mod(v, 256);
    lemma_fundamental_div_mod(v / 256, 256);
    lemma_fundamental_div_mod(v / 65536, 256);
    lemma_fundamental_div_mod(v / 16777216, 256);
    lemma_fundamental_div_mod(v / 4294967296, 256);
    lemma_fundamental_div_mod(v / 1099511627776, 256);
    lemma_fundamental_div_mod(v / 281474976710656, 256);
    lemma_div_denominator(v, 256, 256);
    lemma_div_denominator(v, 65536, 256);
    lemma_div_denominator(v, 16777216, 256);
    lemma_div_denominator(v, 4294967296, 256);
    lemma_div_denominator(v, 1099511627776, 256);
    lemma_div_denominator(v, 281474976710656, 256);
    lemma_mod_division_less_than_divisor(v, 256);
    lemma_mod_division_less_than_divisor(v / 256, 256);
    lemma_mod_division_less_than_divisor(v / 65536, 256);
    lemma_mod_division_less_than_divisor(v / 16777216, 256);
    lemma_mod_division_less_than_divisor(v / 4294967296, 256);
    lemma_mod_division_less_than_divisor(v / 1099511627776, 256);
    lemma_mod_division_less_than_divisor(v / 281474976710656, 256);
    lemma_div_is_ordered(v, 18446744073709551615, 72057594037927936);
    lemma_fundamental_div_mod_converse(18446744073709551615, 72057594037927936, 255, 72057594037927935);
    lemma_small_mod((v / 72057594037927936) as nat, 256);
}

/// Decoding the encoding of any representable record yields the record:
/// the codec round-trips exactly, sentinels and extreme values included.
pub proof fn lemma_codec_round_trip(value: (i32, (i16, i16, i16)))
    ensures
        frame_of(value).len() == 10,
        rec_of(frame_of(value)) == value,
{
    let (id, (x, y, z)) = value;
    lemma_enc4_le4(rep32(id as int));
    lemma_enc2_le2(rep16(x as int));
    lemma_enc2_le2(rep16(y as int));
    lemma_enc2_le2(rep16(z as int));
}

/// Decoding the encoding of any duration yields the duration.
pub proof fn lemma_latency_round_trip(t: u64)
    ensures
        latency_frame_of(t).len() == 10,
        time_of(latency_frame_of(t)) == t,
{
    lemma_enc8_le8(t as int);
}

/// Decode a 10-byte frame as a position record. Never fails on 10 bytes:
/// every byte pattern is some record.
pub fn bytes_to_data(buffer: &[u8; 10]) -> (r: (i32, (i16, i16, i16)))
    ensures
        r == rec_of(buffer@),
{
    let idu: u32 = (buffer[0] as u32) + 256 * (buffer[1] as u32) + 65536 * (buffer[2] as u32)
        + 16777216 * (buffer[3] as u32);
    let id: i32 = if idu < 2147483648 {
        idu as i32
    } else {
        ((idu as i64) - 4294967296) as i32
    };
    let x: i16 = word_to_i16((buffer[4] as u16) + 256 * (buffer[5] as u16));
    let y: i16 = word_to_i16((buffer[6] as u16) + 256 * (buffer[7] as u16));
    let z: i16 = word_to_i16((buffer[8] as u16) + 256 * (buffer[9] as u16));
    proof {
        assert(idu == le4(buffer@[0], buffer@[1], buffer@[2], buffer@[3]));
    }
    (id, (x, y, z))
}

/// Two's-complement reading of one little-endian 16-bit word.
fn word_to_i16(w: u16) -> (r: i16)
    ensures
        r == as_i16(w as int),
{
    if w < 32768 {
        w as i16
    } else {
        ((w as i32) - 65536) as i16
    }
}

/// Unsigned 16-bit representation of a signed 16-bit value.
fn i16_to_word(v: i16) -> (w: u16)
    ensures
        w == rep16(v as int),
{
    if v >= 0 {
        v as u16
    } else {
        ((v as i32) + 65536) as u16
    }
}

/// Encode a position record as its 10 wire bytes.
pub fn data_to_bytes(value: &(i32, (i16, i16, i16))) -> (buffer: [u8; 10])
    ensures
        buffer@ == frame_of(*value),
        rec_of(buffer@) == *value,
{
    let (id, (x, y, z)) = *value;
    let idu: u32 = if id >= 0 {
        id as u32
    } else {
        ((id as i64) + 4294967296) as u32
    };
    let xw: u16 = i16_to_word(x);
    let yw: u16 = i16_to_word(y);
    let zw: u16 = i16_to_word(z);
    let buffer: [u8; 10] = [
        (idu % 256) as u8,
        ((idu / 256) % 256) as u8,
        ((idu / 65536) % 256) as u8,
        ((idu / 16777216) % 256) as u8,
        (xw % 256) as u8,
        ((xw / 256) % 256) as u8,
        (yw % 256) as u8,
        ((yw / 256) % 256) as u8,
        (zw % 256) as u8,
        ((zw / 256) % 256) as u8,
    ];
    proof {
        assert(buffer@ =~= frame_of(*value));
        lemma_codec_round_trip(*value);
    }
    buffer
}

/// Decode a 10-byte frame as a latency report: the little-endian `u64` in
/// its first 8 bytes. The trailing 2 bytes are ignored.
pub fn bytes_to_time(buffer: &[u8; 10]) -> (t: u64)
    ensures
        t == time_of(buffer@),
{
    let t: u64 = (buffer[0] as u64) + 256 * (buffer[1] as u64) + 65536 * (buffer[2] as u64)
        + 16777216 * (buffer[3] as u64) + 4294967296 * (buffer[4] as u64)
        + 1099511627776 * (buffer[5] as u64) + 281474976710656 * (buffer[6] as u64)
        + 72057594037927936 * (buffer[7] as u64);
    t
}

/// Encode a latency report as its 10 wire bytes: 8 little-endian value
/// bytes, then 2 zero bytes.
pub fn time_to_bytes(t: u64) -> (buffer: [u8; 10])
    ensures
        buffer@ == latency_frame_of(t),
        time_of(buffer@) == t,
{
    let buffer: [u8; 10] = [
        (t % 256) as u8,
        ((t / 256) % 256) as u8,
        ((t / 65536) % 256) as u8,
        ((t / 16777216) % 256) as u8,
        ((t / 4294967296) % 256) as u8,
        ((t / 1099511627776) % 256) as u8,
        ((t / 281474976710656) % 256) as u8,
        ((t / 72057594037927936) % 256) as u8,
        0u8,
        0u8,
    ];
    proof {
        assert(buffer@ =~= latency_frame_of(t));
        lemma_latency_round_trip(t);
    }
    buffer
}

} // verus!
