//! Little-endian integers: the number that a sequence of bytes stands for.
use vstd::prelude::*;

verus! {

/// The number that the bytes stand for when the first byte counts least:
/// the sum of `bytes[i]` times 256 to the power `i`.
pub open spec fn le_value(bytes: Seq<u8>) -> nat
    decreases bytes.len(),
{
    if bytes.len() == 0 {
        0
    } else {
        bytes[0] as nat + 256 * le_value(bytes.skip(1))
    }
}

/// 256 to the power `width`: the count of numbers that `width` bytes can
/// stand for.
pub open spec fn span(width: nat) -> nat
    decreases width,
{
    if width == 0 {
        1
    } else {
        256 * span((width - 1) as nat)
    }
}

/// The number that `value` stands for as a two's complement integer of
/// `width` bytes: with the top bit set it is negative.
pub open spec fn signed(value: nat, width: nat) -> int {
    if 2 * value >= span(width) {
        value - span(width)
    } else {
        value as int
    }
}

/// What `width` bytes stand for is less than 256 to the power `width`.
pub proof fn lemma_le_value_bound(bytes: Seq<u8>)
    ensures
        le_value(bytes) < span(bytes.len()),
    decreases bytes.len(),
{
    if bytes.len() > 0 {
        lemma_le_value_bound(bytes.skip(1));
    }
}

/// One byte as an unsigned integer.
pub fn u8_from_le(bytes: &[u8; 1]) -> (value: u8)
    ensures
        value == le_value(bytes@),
{
    proof {
        reveal_with_fuel(le_value, 2);
    }
    bytes[0]
}

/// One byte as a signed integer.
pub fn i8_from_le(bytes: &[u8; 1]) -> (value: i8)
    ensures
        value == signed(le_value(bytes@), 1),
{
    proof {
        reveal_with_fuel(le_value, 2);
        reveal_with_fuel(span, 2);
    }
    let raw = bytes[0];
    if raw >= 0x80 {
        (raw - 0x80) as i8 + i8::MIN
    } else {
        raw as i8
    }
}

/// Two bytes as an unsigned integer.
pub fn u16_from_le(bytes: &[u8; 2]) -> (value: u16)
    ensures
        value == le_value(bytes@),
{
    proof {
        reveal_with_fuel(le_value, 3);
    }
    bytes[0] as u16 + bytes[1] as u16 * 0x100
}

/// Two bytes as a signed integer.
pub fn i16_from_le(bytes: &[u8; 2]) -> (value: i16)
    ensures
        value == signed(le_value(bytes@), 2),
{
    proof {
        reveal_with_fuel(span, 3);
    }
    let raw = u16_from_le(bytes);
    if raw >= 0x8000 {
        (raw - 0x8000) as i16 + i16::MIN
    } else {
        raw as i16
    }
}

/// Four bytes as an unsigned integer.
pub fn u32_from_le(bytes: &[u8; 4]) -> (value: u32)
    ensures
        value == le_value(bytes@),
{
    proof {
        reveal_with_fuel(le_value, 5);
    }
    bytes[0] as u32 + bytes[1] as u32 * 0x100 + bytes[2] as u32 * 0x1_0000 + bytes[3] as u32
        * 0x100_0000
}

/// Four bytes as a signed integer.
pub fn i32_from_le(bytes: &[u8; 4]) -> (value: i32)
    ensures
        value == signed(le_value(bytes@), 4),
{
    proof {
        reveal_with_fuel(span, 5);
    }
    let raw = u32_from_le(bytes);
    if raw >= 0x8000_0000 {
        (raw - 0x8000_0000) as i32 + i32::MIN
    } else {
        raw as i32
    }
}

/// Eight bytes as an unsigned integer.
pub fn u64_from_le(bytes: &[u8; 8]) -> (value: u64)
    ensures
        value == le_value(bytes@),
{
    proof {
        reveal_with_fuel(le_value, 9);
    }
    bytes[0] as u64 + bytes[1] as u64 * 0x100 + bytes[2] as u64 * 0x1_0000 + bytes[3] as u64
        * 0x100_0000 + bytes[4] as u64 * 0x1_0000_0000 + bytes[5] as u64 * 0x100_0000_0000
        + bytes[6] as u64 * 0x1_0000_0000_0000 + bytes[7] as u64 * 0x100_0000_0000_0000
}

/// Eight bytes as a signed integer.
pub fn i64_from_le(bytes: &[u8; 8]) -> (value: i64)
    ensures
        value == signed(le_value(bytes@), 8),
{
    proof {
        reveal_with_fuel(span, 9);
    }
    let raw = u64_from_le(bytes);
    if raw >= 0x8000_0000_0000_0000 {
        (raw - 0x8000_0000_0000_0000) as i64 + i64::MIN
    } else {
        raw as i64
    }
}

} // verus!
