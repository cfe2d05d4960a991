use vstd::prelude::*;

verus! {

use vstd::arithmetic::mul::{lemma_mul_strict_inequality, lemma_mul_is_associative};
use vstd::arithmetic::power2::{
    pow2, lemma2_to64, lemma2_to64_rest, lemma_pow2_adds, lemma_pow2_pos,
    lemma_pow2_strictly_increases,
};
use vstd::bits::{low_bits_mask, lemma_u64_pow2_no_overflow, lemma_u64_shl_is_mul};

/// The value whose binary representation is `length` one bits followed by
/// `shift` zero bits.
pub open spec fn shifted_mask(length: nat, shift: nat) -> nat {
    low_bits_mask(length) * pow2(shift)
}

/// The value with exactly the listed bits set; a repeated index is harmless.
pub open spec fn or_of_bits(bits: Seq<u16>) -> u64
    decreases bits.len(),
{
    if bits.len() == 0 {
        0u64
    } else {
        or_of_bits(bits.drop_last()) | (1u64 << (bits.last() as u64))
    }
}

/// The `width`-bit pattern of value `v`, read as a two's-complement number.
pub open spec fn as_signed(v: nat, width: nat) -> int
    recommends
        1 <= width,
        v < pow2(width),
{
    if v < pow2((width - 1) as nat) {
        v as int
    } else {
        v as int - pow2(width)
    }
}

proof fn lemma_low_bits_mask_step(n: nat)
    ensures
        low_bits_mask(n + 1) == 2 * low_bits_mask(n) + 1,
{
    lemma_pow2_adds(n, 1);
    lemma2_to64();
    lemma_pow2_pos(n);
}

proof fn lemma_shifted_mask_step(length: nat, shift: nat)
    ensures
        shifted_mask(length, shift + 1) == 2 * shifted_mask(length, shift),
{
    lemma_pow2_adds(shift, 1);
    lemma2_to64();
    lemma_mul_is_associative(low_bits_mask(length) as int, pow2(shift) as int, 2);
}

/// A mask of `length` bits shifted by `shift` stays below `pow2(width)`
/// whenever `length + shift` stays within `width`.
proof fn lemma_shifted_mask_fits(length: nat, shift: nat, width: nat)
    requires
        1 <= length,
        length + shift <= width,
        width <= 64,
    ensures
        shifted_mask(length, shift) < pow2(width),
        pow2(width) <= pow2(64),
{
    lemma_pow2_pos(shift);
    lemma_pow2_pos(length);
    lemma_mul_strict_inequality(
        low_bits_mask(length) as int,
        pow2(length) as int,
        pow2(shift) as int,
    );
    lemma_pow2_adds(length, shift);
    if length + shift < width {
        lemma_pow2_strictly_increases(length + shift, width);
    }
    if width < 64 {
        lemma_pow2_strictly_increases(width, 64);
    }
}

/// A bitwise or of single-bit masks below `width` stays below `pow2(width)`.
proof fn lemma_or_of_bits_fits(bits: Seq<u16>, width: u16)
    requires
        1 <= width <= 64,
        forall|k: int| 0 <= k < bits.len() ==> bits[k] < width,
    ensures
        (or_of_bits(bits) as nat) < pow2(width as nat),
    decreases bits.len(),
{
    lemma2_to64();
    lemma2_to64_rest();
    if bits.len() == 0 {
        lemma_pow2_pos(width as nat);
    } else {
        lemma_or_of_bits_fits(bits.drop_last(), width);
        let x = or_of_bits(bits.drop_last());
        let b = bits.last() as u64;
        let w = width as u64;
        if width < 64 {
            lemma_u64_pow2_no_overflow(width as nat);
            lemma_u64_shl_is_mul(1u64, w);
            assert(x < (1u64 << w) && b < w && w < 64 ==> (x | (1u64 << b)) < (1u64 << w))
                by (bit_vector);
        }
    }
}

/// Computes `shifted_mask(length, shift)` as a 64-bit value.
fn mask_u64(length: u16, shift: u16) -> (result: u64)
    requires
        1 <= length,
        length + shift <= 64,
    ensures
        result == shifted_mask(length as nat, shift as nat),
{
    let mut result: u64 = 0;
    let mut i: u16 = 0;
    proof {
        lemma2_to64();
    }
    while i < length
        invariant
            1 <= length <= 64,
            i <= length,
            result == low_bits_mask(i as nat),
        decreases length - i,
    {
        proof {
            lemma_low_bits_mask_step(i as nat);
            lemma_shifted_mask_fits((i + 1) as nat, 0, 64);
            lemma2_to64();
            lemma_pow2_pos((i + 1) as nat);
            assert(shifted_mask((i + 1) as nat, 0) == low_bits_mask((i + 1) as nat));
        }
        result = 2 * result + 1;
        i = i + 1;
    }
    let mut j: u16 = 0;
    proof {
        assert(shifted_mask(length as nat, 0) == low_bits_mask(length as nat)) by {
            lemma2_to64();
        };
    }
    while j < shift
        invariant
            1 <= length <= 64,
            length + shift <= 64,
            j <= shift,
            result == shifted_mask(length as nat, j as nat),
        decreases shift - j,
    {
        proof {
            lemma_shifted_mask_step(length as nat, j as nat);
            lemma_shifted_mask_fits(length as nat, (j + 1) as nat, 64);
            lemma2_to64();
        }
        result = 2 * result;
        j = j + 1;
    }
    result
}

/// Computes `or_of_bits(bits)` as a 64-bit value.
fn or_bits_u64(bits: &[u16]) -> (result: u64)
    requires
        forall|k: int| 0 <= k < bits@.len() ==> bits@[k] < 64,
    ensures
        result == or_of_bits(bits@),
{
    let mut result: u64 = 0;
    let mut i: usize = 0;
    while i < bits.len()
        invariant
            i <= bits@.len(),
            forall|k: int| 0 <= k < bits@.len() ==> bits@[k] < 64,
            result == or_of_bits(bits@.take(i as int)),
        decreases bits@.len() - i,
    {
        let b = bits[i];
        proof {
            assert(bits@.take(i + 1).drop_last() =~= bits@.take(i as int));
            assert(bits@.take(i + 1).last() == bits@[i as int]);
        }
        result = result | (1u64 << (b as u64));
        i = i + 1;
    }
    proof {
        assert(bits@.take(bits@.len() as int) =~= bits@);
    }
    result
}

/// Trait providing utility functions that enable a convenient construction
/// of bit masks.
pub trait Mask: Sized {
    /// Which `(length, shift)` pairs stay inside the target width; callers
    /// are responsible for keeping `length + shift` within the width.
    spec fn mask_req(length: u16, shift: u16) -> bool;

    /// The value `mask` returns.
    spec fn mask_spec(length: u16, shift: u16) -> Self;

    /// Which bit indices exist in the target width.
    spec fn bit_mask_req(bits: Seq<u16>) -> bool;

    /// The value `bit_mask` returns.
    spec fn bit_mask_spec(bits: Seq<u16>) -> Self;

    /// The value `full_mask` returns.
    spec fn full_mask_spec() -> Self;

    /// Creates a mask where the least-significant `length` number of bits
    /// are set to 1 and left-shifted by `shift`.
    fn mask(length: u16, shift: u16) -> (result: Self)
        requires
            Self::mask_req(length, shift),
        ensures
            result == Self::mask_spec(length, shift),
    ;

    /// Sets the bits listed in `bits` to 1.
    fn bit_mask(bits: &[u16]) -> (result: Self)
        requires
            Self::bit_mask_req(bits@),
        ensures
            result == Self::bit_mask_spec(bits@),
    ;

    /// Sets every bit to 1.
    fn full_mask() -> (result: Self)
        ensures
            result == Self::full_mask_spec(),
    ;
}

impl Mask for u8 {
    open spec fn mask_req(length: u16, shift: u16) -> bool {
        1 <= length && length + shift <= 8
    }

    open spec fn mask_spec(length: u16, shift: u16) -> u8 {
        shifted_mask(length as nat, shift as nat) as u8
    }

    open spec fn bit_mask_req(bits: Seq<u16>) -> bool {
        forall|k: int| 0 <= k < bits.len() ==> bits[k] < 8
    }

    open spec fn bit_mask_spec(bits: Seq<u16>) -> u8 {
        or_of_bits(bits) as u8
    }

    open spec fn full_mask_spec() -> u8 {
        0xFF
    }

    fn mask(length: u16, shift: u16) -> (result: u8) {
        let v = mask_u64(length, shift);
        proof {
            lemma_shifted_mask_fits(length as nat, shift as nat, 8);
            lemma2_to64();
        }
        v as u8
    }

    fn bit_mask(bits: &[u16]) -> (result: u8) {
        let v = or_bits_u64(bits);
        proof {
            lemma_or_of_bits_fits(bits@, 8);
            lemma2_to64();
        }
        v as u8
    }

    fn full_mask() -> (result: u8) {
        0xFFu8
    }
}

impl Mask for u16 {
    open spec fn mask_req(length: u16, shift: u16) -> bool {
        1 <= length && length + shift <= 16
    }

    open spec fn mask_spec(length: u16, shift: u16) -> u16 {
        shifted_mask(length as nat, shift as nat) as u16
    }

    open spec fn bit_mask_req(bits: Seq<u16>) -> bool {
        forall|k: int| 0 <= k < bits.len() ==> bits[k] < 16
    }

    open spec fn bit_mask_spec(bits: Seq<u16>) -> u16 {
        or_of_bits(bits) as u16
    }

    open spec fn full_mask_spec() -> u16 {
        0xFF_FF
    }

    fn mask(length: u16, shift: u16) -> (result: u16) {
        let v = mask_u64(length, shift);
        proof {
            lemma_shifted_mask_fits(length as nat, shift as nat, 16);
            lemma2_to64();
        }
        v as u16
    }

    fn bit_mask(bits: &[u16]) -> (result: u16) {
        let v = or_bits_u64(bits);
        proof {
            lemma_or_of_bits_fits(bits@, 16);
            lemma2_to64();
        }
        v as u16
    }

    fn full_mask() -> (result: u16) {
        0xFF_FFu16
    }
}

impl Mask for u32 {
    open spec fn mask_req(length: u16, shift: u16) -> bool {
        1 <= length && length + shift <= 32
    }

    open spec fn mask_spec(length: u16, shift: u16) -> u32 {
        shifted_mask(length as nat, shift as nat) as u32
    }

    open spec fn bit_mask_req(bits: Seq<u16>) -> bool {
        forall|k: int| 0 <= k < bits.len() ==> bits[k] < 32
    }

    open spec fn bit_mask_spec(bits: Seq<u16>) -> u32 {
        or_of_bits(bits) as u32
    }

    open spec fn full_mask_spec() -> u32 {
        0xFF_FF_FF_FF
    }

    fn mask(length: u16, shift: u16) -> (result: u32) {
        let v = mask_u64(length, shift);
        proof {
            lemma_shifted_mask_fits(length as nat, shift as nat, 32);
            lemma2_to64();
        }
        v as u32
    }

    fn bit_mask(bits: &[u16]) -> (result: u32) {
        let v = or_bits_u64(bits);
        proof {
            lemma_or_of_bits_fits(bits@, 32);
            lemma2_to64();
        }
        v as u32
    }

    fn full_mask() -> (result: u32) {
        0xFF_FF_FF_FFu32
    }
}

impl Mask for u64 {
    open spec fn mask_req(length: u16, shift: u16) -> bool {
        1 <= length && length + shift <= 64
    }

    open spec fn mask_spec(length: u16, shift: u16) -> u64 {
        shifted_mask(length as nat, shift as nat) as u64
    }

    open spec fn bit_mask_req(bits: Seq<u16>) -> bool {
        forall|k: int| 0 <= k < bits.len() ==> bits[k] < 64
    }

    open spec fn bit_mask_spec(bits: Seq<u16>) -> u64 {
        or_of_bits(bits)
    }

    open spec fn full_mask_spec() -> u64 {
        0xFF_FF_FF_FF_FF_FF_FF_FF
    }

    fn mask(length: u16, shift: u16) -> (result: u64) {
        let v = mask_u64(length, shift);
        proof {
            lemma_shifted_mask_fits(length as nat, shift as nat, 64);
            lemma2_to64();
        }
        v
    }

    fn bit_mask(bits: &[u16]) -> (result: u64) {
        or_bits_u64(bits)
    }

    fn full_mask() -> (result: u64) {
        0xFF_FF_FF_FF_FF_FF_FF_FFu64
    }
}

/// Converts an 8-bit pattern held in a `u64` to its two's-complement reading.
fn pattern_to_i8(v: u64) -> (result: i8)
    requires
        v < 256,
    ensures
        result as int == as_signed(v as nat, 8),
{
    proof {
        lemma2_to64();
    }
    if v < 128 {
        v as i8
    } else {
        ((v as i16) - 256) as i8
    }
}

/// Converts a 16-bit pattern held in a `u64` to its two's-complement reading.
fn pattern_to_i16(v: u64) -> (result: i16)
    requires
        v < 0x1_00_00,
    ensures
        result as int == as_signed(v as nat, 16),
{
    proof {
        lemma2_to64();
    }
    if v < 0x80_00 {
        v as i16
    } else {
        ((v as i32) - 0x1_00_00) as i16
    }
}

/// Converts a 32-bit pattern held in a `u64` to its two's-complement reading.
fn pattern_to_i32(v: u64) -> (result: i32)
    requires
        v < 0x1_00_00_00_00,
    ensures
        result as int == as_signed(v as nat, 32),
{
    proof {
        lemma2_to64();
    }
    if v < 0x80_00_00_00 {
        v as i32
    } else {
        ((v as i64) - 0x1_00_00_00_00) as i32
    }
}

/// Converts a 64-bit pattern held in a `u64` to its two's-complement reading.
fn pattern_to_i64(v: u64) -> (result: i64)
    ensures
        result as int == as_signed(v as nat, 64),
{
    proof {
        lemma2_to64();
        lemma2_to64_rest();
    }
    if v < 0x80_00_00_00_00_00_00_00 {
        v as i64
    } else {
        ((v as i128) - 0x1_00_00_00_00_00_00_00_00) as i64
    }
}

impl Mask for i8 {
    open spec fn mask_req(length: u16, shift: u16) -> bool {
        1 <= length && length + shift <= 8
    }

    open spec fn mask_spec(length: u16, shift: u16) -> i8 {
        as_signed(shifted_mask(length as nat, shift as nat), 8) as i8
    }

    open spec fn bit_mask_req(bits: Seq<u16>) -> bool {
        forall|k: int| 0 <= k < bits.len() ==> bits[k] < 8
    }

    open spec fn bit_mask_spec(bits: Seq<u16>) -> i8 {
        as_signed(or_of_bits(bits) as nat, 8) as i8
    }

    open spec fn full_mask_spec() -> i8 {
        -1i8
    }

    fn mask(length: u16, shift: u16) -> (result: i8) {
        let v = mask_u64(length, shift);
        proof {
            lemma_shifted_mask_fits(length as nat, shift as nat, 8);
            lemma2_to64();
        }
        pattern_to_i8(v)
    }

    fn bit_mask(bits: &[u16]) -> (result: i8) {
        let v = or_bits_u64(bits);
        proof {
            lemma_or_of_bits_fits(bits@, 8);
            lemma2_to64();
        }
        pattern_to_i8(v)
    }

    fn full_mask() -> (result: i8) {
        -1i8
    }
}

impl Mask for i16 {
    open spec fn mask_req(length: u16, shift: u16) -> bool {
        1 <= length && length + shift <= 16
    }

    open spec fn mask_spec(length: u16, shift: u16) -> i16 {
        as_signed(shifted_mask(length as nat, shift as nat), 16) as i16
    }

    open spec fn bit_mask_req(bits: Seq<u16>) -> bool {
        forall|k: int| 0 <= k < bits.len() ==> bits[k] < 16
    }

    open spec fn bit_mask_spec(bits: Seq<u16>) -> i16 {
        as_signed(or_of_bits(bits) as nat, 16) as i16
    }

    open spec fn full_mask_spec() -> i16 {
        -1i16
    }

    fn mask(length: u16, shift: u16) -> (result: i16) {
        let v = mask_u64(length, shift);
        proof {
            lemma_shifted_mask_fits(length as nat, shift as nat, 16);
            lemma2_to64();
        }
        pattern_to_i16(v)
    }

    fn bit_mask(bits: &[u16]) -> (result: i16) {
        let v = or_bits_u64(bits);
        proof {
            lemma_or_of_bits_fits(bits@, 16);
            lemma2_to64();
        }
        pattern_to_i16(v)
    }

    fn full_mask() -> (result: i16) {
        -1i16
    }
}

impl Mask for i32 {
    open spec fn mask_req(length: u16, shift: u16) -> bool {
        1 <= length && length + shift <= 32
    }

    open spec fn mask_spec(length: u16, shift: u16) -> i32 {
        as_signed(shifted_mask(length as nat, shift as nat), 32) as i32
    }

    open spec fn bit_mask_req(bits: Seq<u16>) -> bool {
        forall|k: int| 0 <= k < bits.len() ==> bits[k] < 32
    }

    open spec fn bit_mask_spec(bits: Seq<u16>) -> i32 {
        as_signed(or_of_bits(bits) as nat, 32) as i32
    }

    open spec fn full_mask_spec() -> i32 {
        -1i32
    }

    fn mask(length: u16, shift: u16) -> (result: i32) {
        let v = mask_u64(length, shift);
        proof {
            lemma_shifted_mask_fits(length as nat, shift as nat, 32);
            lemma2_to64();
        }
        pattern_to_i32(v)
    }

    fn bit_mask(bits: &[u16]) -> (result: i32) {
        let v = or_bits_u64(bits);
        proof {
            lemma_or_of_bits_fits(bits@, 32);
            lemma2_to64();
        }
        pattern_to_i32(v)
    }

    fn full_mask() -> (result: i32) {
        -1i32
    }
}

impl Mask for i64 {
    open spec fn mask_req(length: u16, shift: u16) -> bool {
        1 <= length && length + shift <= 64
    }

    open spec fn mask_spec(length: u16, shift: u16) -> i64 {
        as_signed(shifted_mask(length as nat, shift as nat), 64) as i64
    }

    open spec fn bit_mask_req(bits: Seq<u16>) -> bool {
        forall|k: int| 0 <= k < bits.len() ==> bits[k] < 64
    }

    open spec fn bit_mask_spec(bits: Seq<u16>) -> i64 {
        as_signed(or_of_bits(bits) as nat, 64) as i64
    }

    open spec fn full_mask_spec() -> i64 {
        -1i64
    }

    fn mask(length: u16, shift: u16) -> (result: i64) {
        let v = mask_u64(length, shift);
        proof {
            lemma_shifted_mask_fits(length as nat, shift as nat, 64);
            lemma2_to64();
        }
        pattern_to_i64(v)
    }

    fn bit_mask(bits: &[u16]) -> (result: i64) {
        let v = or_bits_u64(bits);
        proof {
            lemma_or_of_bits_fits(bits@, 64);
            lemma2_to64();
        }
        pattern_to_i64(v)
    }

    fn full_mask() -> (result: i64) {
        -1i64
    }
}

} // verus!
