//! The bit-addressing model: how a `(start, length, endian)` triple maps to
//! physical bits of a byte buffer, and what raw value those bits hold.
//!
//! Bits are numbered physically in little-endian fashion: bit `pos` lives in
//! byte `pos / 8` at intra-byte offset `pos % 8`. Under little-endian
//! numbering, significance increases with the physical index. Under
//! big-endian ("Motorola") numbering, significance follows the canonical
//! order, which walks each byte from bit 7 down to bit 0 and then continues
//! at bit 7 of the following byte.

use vstd::prelude::*;

verus! {

use vstd::arithmetic::div_mod::{
    lemma_fundamental_div_mod_converse, lemma_small_mod,
};
use vstd::arithmetic::power2::{
    pow2, lemma2_to64, lemma2_to64_rest, lemma_pow2_adds, lemma_pow2_pos,
    lemma_pow2_strictly_increases,
};
use vstd::bits::{
    lemma_u64_low_bits_mask_is_mod, lemma_u64_pow2_no_overflow, lemma_u64_shl_is_mul,
};

/// Whether physical bit `pos` of the buffer is set.
pub open spec fn bit_at(bytes: Seq<u8>, pos: nat) -> bool
    recommends
        pos < 8 * bytes.len(),
{
    (bytes[(pos / 8) as int] >> ((pos % 8) as u8)) & 1 == 1
}

/// The buffer with physical bit `pos` set to `value` and every other bit
/// unchanged.
pub open spec fn with_bit(bytes: Seq<u8>, pos: nat, value: bool) -> Seq<u8>
    recommends
        pos < 8 * bytes.len(),
{
    let byte = bytes[(pos / 8) as int];
    let mask = 1u8 << ((pos % 8) as u8);
    let updated = if value {
        byte | mask
    } else {
        byte & !mask
    };
    bytes.update((pos / 8) as int, updated)
}

/// The canonical position of physical bit `pos` under big-endian numbering:
/// inside each byte, bit 7 comes first.
pub open spec fn canonical(pos: nat) -> nat {
    (8 * (pos / 8) + 7 - pos % 8) as nat
}

/// The physical bit that follows `pos` in the big-endian walk: down within
/// the byte, then to bit 7 of the next byte.
pub open spec fn be_next(pos: nat) -> nat {
    if pos % 8 == 0 {
        (pos / 8 + 1) * 8 + 7
    } else {
        (pos - 1) as nat
    }
}

/// The physical bit reached after `k` big-endian steps from `start`.
pub open spec fn be_pos(start: nat, k: nat) -> nat
    decreases k,
{
    if k == 0 {
        start
    } else {
        be_next(be_pos(start, (k - 1) as nat))
    }
}

/// Whether `length` bits at `start` fit into `dlc` bytes under little-endian
/// numbering.
pub open spec fn le_fits(start: nat, length: nat, dlc: nat) -> bool {
    start + length <= 8 * dlc
}

/// Whether `length` bits at `start` fit into `dlc` bytes under big-endian
/// numbering.
pub open spec fn be_fits(start: nat, length: nat, dlc: nat) -> bool {
    canonical(start) + length <= 8 * dlc
}

/// The value of `length` bits read at `start` under little-endian numbering;
/// bit `start` is least significant.
pub open spec fn le_value(bytes: Seq<u8>, start: nat, length: nat) -> nat
    decreases length,
{
    if length == 0 {
        0
    } else {
        (if bit_at(bytes, start) {
            1nat
        } else {
            0nat
        }) + 2 * le_value(bytes, start + 1, (length - 1) as nat)
    }
}

/// The value of `length` bits read from `start` along the big-endian walk;
/// bit `start` is most significant.
pub open spec fn be_value(bytes: Seq<u8>, start: nat, length: nat) -> nat
    decreases length,
{
    if length == 0 {
        0
    } else {
        (if bit_at(bytes, start) {
            pow2((length - 1) as nat)
        } else {
            0
        }) + be_value(bytes, be_next(start), (length - 1) as nat)
    }
}

/// The buffer after the low `length` bits of `v` are written at `start`
/// under little-endian numbering, least-significant bit first.
pub open spec fn le_written(bytes: Seq<u8>, start: nat, length: nat, v: nat) -> Seq<u8>
    decreases length,
{
    if length == 0 {
        bytes
    } else {
        le_written(with_bit(bytes, start, v % 2 == 1), start + 1, (length - 1) as nat, v / 2)
    }
}

/// The buffer after the low `length` bits of `v` are written along the
/// big-endian walk from `start`, most-significant bit first.
pub open spec fn be_written(bytes: Seq<u8>, start: nat, length: nat, v: nat) -> Seq<u8>
    decreases length,
{
    if length == 0 {
        bytes
    } else {
        be_written(
            with_bit(bytes, start, v / pow2((length - 1) as nat) % 2 == 1),
            be_next(start),
            (length - 1) as nat,
            v % pow2((length - 1) as nat),
        )
    }
}

/// Division and remainder by 8 of a value given in byte/offset form.
proof fn lemma_div_mod_8(a: nat, b: nat)
    requires
        b < 8,
    ensures
        (8 * a + b) / 8 == a,
        (8 * a + b) % 8 == b,
{
    lemma_fundamental_div_mod_converse((8 * a + b) as int, 8, a as int, b as int);
}

/// The canonical relabeling maps each byte onto itself.
pub proof fn lemma_canonical_byte(pos: nat)
    ensures
        canonical(pos) / 8 == pos / 8,
        canonical(pos) % 8 == 7 - pos % 8,
{
    lemma_div_mod_8(pos / 8, (7 - pos % 8) as nat);
}

/// The canonical relabeling is an involution.
pub proof fn lemma_canonical_involution(pos: nat)
    ensures
        canonical(canonical(pos)) == pos,
{
    lemma_canonical_byte(pos);
}

/// One big-endian step advances the canonical position by exactly one.
pub proof fn lemma_be_next_canonical(pos: nat)
    ensures
        canonical(be_next(pos)) == canonical(pos) + 1,
{
    if pos % 8 == 0 {
        lemma_div_mod_8(pos / 8 + 1, 7);
    } else {
        lemma_div_mod_8(pos / 8, (pos % 8 - 1) as nat);
        assert((pos - 1) as nat == 8 * (pos / 8) + (pos % 8 - 1));
    }
}

/// After `k` big-endian steps the canonical position has advanced by `k`.
pub proof fn lemma_be_pos_canonical(start: nat, k: nat)
    ensures
        canonical(be_pos(start, k)) == canonical(start) + k,
    decreases k,
{
    if k > 0 {
        lemma_be_pos_canonical(start, (k - 1) as nat);
        lemma_be_next_canonical(be_pos(start, (k - 1) as nat));
    }
}

/// Stepping first and walking after is the same as walking one step longer.
proof fn lemma_be_pos_shift(start: nat, k: nat)
    ensures
        be_pos(be_next(start), k) == be_pos(start, k + 1),
    decreases k,
{
    if k == 0 {
        assert(be_pos(start, 1) == be_next(be_pos(start, 0)));
    } else {
        lemma_be_pos_shift(start, (k - 1) as nat);
        assert(be_pos(be_next(start), k) == be_next(be_pos(be_next(start), (k - 1) as nat)));
        assert(be_pos(start, k + 1) == be_next(be_pos(start, k)));
    }
}

/// Distinct physical bits have distinct canonical positions and vice versa.
pub proof fn lemma_canonical_injective(p: nat, q: nat)
    ensures
        (canonical(p) == canonical(q)) == (p == q),
{
    lemma_canonical_involution(p);
    lemma_canonical_involution(q);
}

/// A physical bit is inside the buffer exactly when its canonical position
/// is.
pub proof fn lemma_canonical_in_bounds(pos: nat, dlc: nat)
    ensures
        (pos < 8 * dlc) == (canonical(pos) < 8 * dlc),
{
    lemma_canonical_byte(pos);
    lemma_pos_recompose(pos);
}

/// Every position is its byte index times eight plus its intra-byte offset.
proof fn lemma_pos_recompose(pos: nat)
    ensures
        pos == 8 * (pos / 8) + pos % 8,
{
    lemma_fundamental_div_mod_converse(pos as int, 8, (pos / 8) as int, (pos % 8) as int);
}

/// A bit position lies inside a buffer exactly when its byte index does.
pub proof fn lemma_byte_of_pos(pos: nat, n: nat)
    ensures
        (pos / 8 < n) == (pos < 8 * n),
{
    lemma_pos_recompose(pos);
}

/// Setting one bit changes that bit, no other bit, and no length.
pub proof fn lemma_with_bit(bytes: Seq<u8>, pos: nat, value: bool)
    requires
        pos < 8 * bytes.len(),
    ensures
        with_bit(bytes, pos, value).len() == bytes.len(),
        bit_at(with_bit(bytes, pos, value), pos) == value,
        forall|q: nat|
            q < 8 * bytes.len() && q != pos ==> bit_at(with_bit(bytes, pos, value), q) == bit_at(
                bytes,
                q,
            ),
{
    lemma_pos_recompose(pos);
    let updated = with_bit(bytes, pos, value);
    let x = bytes[(pos / 8) as int];
    let i = (pos % 8) as u8;
    if value {
        assert(i < 8 ==> ((x | (1u8 << i)) >> i) & 1 == 1) by (bit_vector);
    } else {
        assert(i < 8 ==> ((x & !(1u8 << i)) >> i) & 1 == 0) by (bit_vector);
    }
    assert forall|q: nat| q < 8 * bytes.len() && q != pos implies bit_at(updated, q) == bit_at(
        bytes,
        q,
    ) by {
        lemma_pos_recompose(q);
        if q / 8 == pos / 8 {
            let j = (q % 8) as u8;
            if value {
                assert(i < 8 && j < 8 && i != j ==> ((x | (1u8 << i)) >> j) & 1 == (x >> j) & 1)
                    by (bit_vector);
            } else {
                assert(i < 8 && j < 8 && i != j ==> ((x & !(1u8 << i)) >> j) & 1 == (x >> j) & 1)
                    by (bit_vector);
            }
        }
    }
}

/// A little-endian read of `length` bits stays below `pow2(length)`.
pub proof fn lemma_le_value_bound(bytes: Seq<u8>, start: nat, length: nat)
    ensures
        le_value(bytes, start, length) < pow2(length),
    decreases length,
{
    lemma2_to64();
    if length > 0 {
        lemma_le_value_bound(bytes, start + 1, (length - 1) as nat);
        lemma_pow2_adds((length - 1) as nat, 1);
    }
}

/// A big-endian read of `length` bits stays below `pow2(length)`.
pub proof fn lemma_be_value_bound(bytes: Seq<u8>, start: nat, length: nat)
    ensures
        be_value(bytes, start, length) < pow2(length),
    decreases length,
{
    lemma2_to64();
    if length > 0 {
        lemma_be_value_bound(bytes, be_next(start), (length - 1) as nat);
        lemma_pow2_adds((length - 1) as nat, 1);
    }
}

/// Splitting off the most significant bit of a little-endian read.
proof fn lemma_le_value_unfold_last(bytes: Seq<u8>, start: nat, length: nat)
    requires
        1 <= length,
    ensures
        le_value(bytes, start, length) == le_value(bytes, start, (length - 1) as nat) + (if bit_at(
            bytes,
            (start + length - 1) as nat,
        ) {
            pow2((length - 1) as nat)
        } else {
            0
        }),
    decreases length,
{
    lemma2_to64();
    if length == 1 {
        assert(le_value(bytes, start + 1, 0) == 0);
        assert(le_value(bytes, start, 0) == 0);
    } else {
        lemma_le_value_unfold_last(bytes, start + 1, (length - 1) as nat);
        lemma_pow2_adds((length - 2) as nat, 1);
        assert((start + 1 + (length - 1) - 1) as nat == (start + length - 1) as nat);
    }
}

/// Splitting off the least significant bit of a big-endian read.
proof fn lemma_be_value_unfold_last(bytes: Seq<u8>, start: nat, length: nat)
    requires
        1 <= length,
    ensures
        be_value(bytes, start, length) == 2 * be_value(bytes, start, (length - 1) as nat) + (
        if bit_at(bytes, be_pos(start, (length - 1) as nat)) {
            1nat
        } else {
            0nat
        }),
    decreases length,
{
    lemma2_to64();
    if length == 1 {
        assert(be_pos(start, 0) == start);
        assert(be_value(bytes, be_next(start), 0) == 0);
        assert(be_value(bytes, start, 0) == 0);
    } else {
        lemma_be_value_unfold_last(bytes, be_next(start), (length - 1) as nat);
        lemma_be_pos_shift(start, (length - 2) as nat);
        lemma_pow2_adds((length - 2) as nat, 1);
    }
}

/// A little-endian read depends only on the bits it covers.
proof fn lemma_le_value_congruence(b1: Seq<u8>, b2: Seq<u8>, start: nat, length: nat)
    requires
        forall|p: nat| start <= p < start + length ==> bit_at(b1, p) == bit_at(b2, p),
    ensures
        le_value(b1, start, length) == le_value(b2, start, length),
    decreases length,
{
    if length > 0 {
        assert(bit_at(b1, start) == bit_at(b2, start));
        lemma_le_value_congruence(b1, b2, start + 1, (length - 1) as nat);
    }
}

/// A big-endian read depends only on the bits its walk covers, identified by
/// their canonical positions.
proof fn lemma_be_value_congruence(b1: Seq<u8>, b2: Seq<u8>, start: nat, length: nat)
    requires
        forall|p: nat|
            canonical(start) <= canonical(p) < canonical(start) + length ==> bit_at(b1, p)
                == bit_at(b2, p),
    ensures
        be_value(b1, start, length) == be_value(b2, start, length),
    decreases length,
{
    if length > 0 {
        assert(bit_at(b1, start) == bit_at(b2, start));
        lemma_be_next_canonical(start);
        assert forall|p: nat|
            canonical(be_next(start)) <= canonical(p) < canonical(be_next(start)) + (length
                - 1) implies bit_at(b1, p) == bit_at(b2, p) by {
            assert(canonical(start) <= canonical(p) < canonical(start) + length);
        }
        lemma_be_value_congruence(b1, b2, be_next(start), (length - 1) as nat);
    }
}

/// Writing little-endian keeps the buffer length.
pub proof fn lemma_le_written_len(bytes: Seq<u8>, start: nat, length: nat, v: nat)
    requires
        le_fits(start, length, bytes.len()),
    ensures
        le_written(bytes, start, length, v).len() == bytes.len(),
    decreases length,
{
    if length > 0 {
        lemma_with_bit(bytes, start, v % 2 == 1);
        lemma_le_written_len(with_bit(bytes, start, v % 2 == 1), start + 1, (length - 1) as nat, v / 2);
    }
}

/// Writing little-endian changes no bit outside the written span.
pub proof fn lemma_le_written_frame(bytes: Seq<u8>, start: nat, length: nat, v: nat)
    requires
        le_fits(start, length, bytes.len()),
    ensures
        forall|p: nat|
            p < 8 * bytes.len() && !(start <= p < start + length) ==> bit_at(
                le_written(bytes, start, length, v),
                p,
            ) == bit_at(bytes, p),
    decreases length,
{
    if length > 0 {
        let stepped = with_bit(bytes, start, v % 2 == 1);
        lemma_with_bit(bytes, start, v % 2 == 1);
        lemma_le_written_frame(stepped, start + 1, (length - 1) as nat, v / 2);
    }
}

/// Reading back a little-endian write returns the written value, reduced to
/// the declared width.
pub proof fn lemma_le_written_value(bytes: Seq<u8>, start: nat, length: nat, v: nat)
    requires
        le_fits(start, length, bytes.len()),
    ensures
        le_value(le_written(bytes, start, length, v), start, length) == v % pow2(length),
    decreases length,
{
    lemma2_to64();
    lemma_pow2_pos(length);
    if length == 0 {
        lemma_small_mod(0, 1);
    } else {
        let stepped = with_bit(bytes, start, v % 2 == 1);
        let written = le_written(bytes, start, length, v);
        lemma_pow2_pos((length - 1) as nat);
        lemma_with_bit(bytes, start, v % 2 == 1);
        assert(written == le_written(stepped, start + 1, (length - 1) as nat, v / 2));
        lemma_le_written_value(stepped, start + 1, (length - 1) as nat, v / 2);
        lemma_le_written_frame(stepped, start + 1, (length - 1) as nat, v / 2);
        assert(bit_at(written, start) == bit_at(stepped, start));
        assert(le_value(written, start, length) == (if v % 2 == 1 {
            1nat
        } else {
            0nat
        }) + 2 * ((v / 2) % pow2((length - 1) as nat)));
        vstd::arithmetic::div_mod::lemma_breakdown(v as int, 2, pow2((length - 1) as nat) as int);
        lemma_pow2_adds(1, (length - 1) as nat);
    }
}

/// Writing big-endian keeps the buffer length.
pub proof fn lemma_be_written_len(bytes: Seq<u8>, start: nat, length: nat, v: nat)
    requires
        be_fits(start, length, bytes.len()),
    ensures
        be_written(bytes, start, length, v).len() == bytes.len(),
    decreases length,
{
    if length > 0 {
        let topbit = v / pow2((length - 1) as nat) % 2 == 1;
        lemma_pow2_pos((length - 1) as nat);
        lemma_canonical_in_bounds(start, bytes.len());
        lemma_with_bit(bytes, start, topbit);
        lemma_be_next_canonical(start);
        lemma_be_written_len(
            with_bit(bytes, start, topbit),
            be_next(start),
            (length - 1) as nat,
            (v % pow2((length - 1) as nat)) as nat,
        );
        assert(be_written(bytes, start, length, v) == be_written(
            with_bit(bytes, start, topbit),
            be_next(start),
            (length - 1) as nat,
            (v % pow2((length - 1) as nat)) as nat,
        ));
    }
}

/// Writing big-endian changes no bit whose canonical position lies outside
/// the written span.
pub proof fn lemma_be_written_frame(bytes: Seq<u8>, start: nat, length: nat, v: nat)
    requires
        be_fits(start, length, bytes.len()),
    ensures
        forall|p: nat|
            p < 8 * bytes.len() && !(canonical(start) <= canonical(p) < canonical(start)
                + length) ==> bit_at(be_written(bytes, start, length, v), p) == bit_at(bytes, p),
    decreases length,
{
    if length > 0 {
        let topbit = v / pow2((length - 1) as nat) % 2 == 1;
        let rest = (v % pow2((length - 1) as nat)) as nat;
        let stepped = with_bit(bytes, start, topbit);
        let written = be_written(bytes, start, length, v);
        lemma_pow2_pos((length - 1) as nat);
        lemma_canonical_in_bounds(start, bytes.len());
        lemma_with_bit(bytes, start, topbit);
        lemma_be_next_canonical(start);
        assert(written == be_written(stepped, be_next(start), (length - 1) as nat, rest));
        lemma_be_written_frame(stepped, be_next(start), (length - 1) as nat, rest);
        assert forall|p: nat|
            p < 8 * bytes.len() && !(canonical(start) <= canonical(p) < canonical(start)
                + length) implies bit_at(written, p) == bit_at(bytes, p) by {
            lemma_canonical_injective(p, start);
            assert(bit_at(be_written(stepped, be_next(start), (length - 1) as nat, rest), p)
                == bit_at(stepped, p));
            assert(bit_at(stepped, p) == bit_at(bytes, p));
        }
    }
}

/// Reading back a big-endian write returns the written value, reduced to the
/// declared width.
pub proof fn lemma_be_written_value(bytes: Seq<u8>, start: nat, length: nat, v: nat)
    requires
        be_fits(start, length, bytes.len()),
    ensures
        be_value(be_written(bytes, start, length, v), start, length) == v % pow2(length),
    decreases length,
{
    lemma2_to64();
    lemma_pow2_pos(length);
    if length == 0 {
        lemma_small_mod(0, 1);
    } else {
        let half = pow2((length - 1) as nat);
        let topbit = v / half % 2 == 1;
        let rest = (v % half) as nat;
        let stepped = with_bit(bytes, start, topbit);
        let written = be_written(bytes, start, length, v);
        lemma_pow2_pos((length - 1) as nat);
        lemma_canonical_in_bounds(start, bytes.len());
        lemma_with_bit(bytes, start, topbit);
        lemma_be_next_canonical(start);
        assert(written == be_written(stepped, be_next(start), (length - 1) as nat, rest));
        lemma_be_written_value(stepped, be_next(start), (length - 1) as nat, rest);
        lemma_small_mod(rest, half);
        lemma_be_written_frame(stepped, be_next(start), (length - 1) as nat, rest);
        assert(start < 8 * stepped.len());
        assert(!(canonical(be_next(start)) <= canonical(start) < canonical(be_next(start)) + (
        length - 1)));
        assert(bit_at(be_written(stepped, be_next(start), (length - 1) as nat, rest), start)
            == bit_at(stepped, start));
        assert(bit_at(written, start) == topbit);
        assert(be_value(written, start, length) == (if topbit {
            half
        } else {
            0nat
        }) + rest);
        vstd::arithmetic::div_mod::lemma_breakdown(v as int, half as int, 2);
        lemma_pow2_adds((length - 1) as nat, 1);
        assert(pow2(length) == half * 2);
        assert(v as int % (half as int * 2) == half * ((v as int / half as int) % 2) + v as int
            % half as int);
        vstd::arithmetic::div_mod::lemma_mod_division_less_than_divisor(v as int / half as int, 2);
        let b = (v as int / half as int) % 2;
        if topbit {
            assert(b == 1);
            assert(half * b == half as int);
        } else {
            assert(b == 0);
            assert(half * b == 0);
        }
    }
}

/// Reversing the byte order moves physical bit `s` to the mirror image of
/// its canonical position.
proof fn lemma_reverse_bit(bytes: Seq<u8>, s: nat)
    requires
        s < 8 * bytes.len(),
    ensures
        bit_at(bytes.reverse(), (8 * bytes.len() - 1 - canonical(s)) as nat) == bit_at(bytes, s),
{
    let n = bytes.len();
    let p = (8 * n - 1 - canonical(s)) as nat;
    lemma_pos_recompose(s);
    lemma_canonical_byte(s);
    lemma_div_mod_8((n - 1 - s / 8) as nat, s % 8);
    assert(p == 8 * ((n - 1 - s / 8) as nat) + s % 8);
    assert(bytes.reverse()[(p / 8) as int] == bytes[(s / 8) as int]);
}

/// The two bit-numbering conventions are structural mirrors of each other: a
/// big-endian read equals a little-endian read of the byte-order-reversed
/// buffer at the mirrored bit position.
pub proof fn lemma_endian_mirror(bytes: Seq<u8>, start: nat, length: nat)
    requires
        be_fits(start, length, bytes.len()),
    ensures
        be_value(bytes, start, length) == le_value(
            bytes.reverse(),
            (8 * bytes.len() - canonical(start) - length) as nat,
            length,
        ),
    decreases length,
{
    if length > 0 {
        let n = bytes.len();
        let q0 = (8 * n - canonical(start) - length) as nat;
        lemma_be_next_canonical(start);
        lemma_endian_mirror(bytes, be_next(start), (length - 1) as nat);
        assert((8 * n - canonical(be_next(start)) - (length - 1)) as nat == q0);
        lemma_canonical_in_bounds(start, n);
        lemma_reverse_bit(bytes, start);
        assert(q0 + length - 1 == 8 * n - 1 - canonical(start));
        lemma_le_value_unfold_last(bytes.reverse(), q0, length);
    }
}

/// Round trip under little-endian numbering: writing a raw value that fits
/// the declared width and reading it back returns the value, the buffer
/// keeps its length, and no bit outside the declared span changes.
pub proof fn lemma_round_trip_little(bytes: Seq<u8>, start: nat, length: nat, v: nat)
    requires
        le_fits(start, length, bytes.len()),
        v < pow2(length),
    ensures
        le_value(le_written(bytes, start, length, v), start, length) == v,
        le_written(bytes, start, length, v).len() == bytes.len(),
        forall|p: nat|
            p < 8 * bytes.len() && !(start <= p < start + length) ==> bit_at(
                le_written(bytes, start, length, v),
                p,
            ) == bit_at(bytes, p),
{
    lemma_pow2_pos(length);
    lemma_small_mod(v, pow2(length));
    lemma_le_written_value(bytes, start, length, v);
    lemma_le_written_len(bytes, start, length, v);
    lemma_le_written_frame(bytes, start, length, v);
}

/// Round trip under big-endian numbering: writing a raw value that fits the
/// declared width and reading it back returns the value, the buffer keeps
/// its length, and no bit whose canonical position lies outside the declared
/// span changes.
pub proof fn lemma_round_trip_big(bytes: Seq<u8>, start: nat, length: nat, v: nat)
    requires
        be_fits(start, length, bytes.len()),
        v < pow2(length),
    ensures
        be_value(be_written(bytes, start, length, v), start, length) == v,
        be_written(bytes, start, length, v).len() == bytes.len(),
        forall|p: nat|
            p < 8 * bytes.len() && !(canonical(start) <= canonical(p) < canonical(start)
                + length) ==> bit_at(be_written(bytes, start, length, v), p) == bit_at(bytes, p),
{
    lemma_pow2_pos(length);
    lemma_small_mod(v, pow2(length));
    lemma_be_written_value(bytes, start, length, v);
    lemma_be_written_len(bytes, start, length, v);
    lemma_be_written_frame(bytes, start, length, v);
}

/// Computes `pow2(e)` as a 64-bit value.
pub(crate) fn pow2_u64(e: u16) -> (r: u64)
    requires
        e < 64,
    ensures
        r == pow2(e as nat),
{
    proof {
        lemma_u64_pow2_no_overflow(e as nat);
        lemma_u64_shl_is_mul(1u64, e as u64);
    }
    1u64 << (e as u64)
}

/// Reads one physical bit out of a byte slice.
pub(crate) fn bit_from_slice(s: &[u8], pos: u64) -> (r: bool)
    requires
        pos < 8 * s@.len(),
    ensures
        r == bit_at(s@, pos as nat),
{
    let n = s.len();
    proof {
        lemma_pos_recompose(pos as nat);
    }
    let byte = s[(pos / 8) as usize];
    ((byte >> ((pos % 8) as u8)) & 1) == 1
}

/// Sets or clears one physical bit of a byte slice, preserving every other
/// bit of the byte it lives in.
pub(crate) fn set_bit_in_slice(s: &mut [u8], pos: u64, value: bool)
    requires
        pos < 8 * old(s)@.len(),
    ensures
        final(s)@ == with_bit(old(s)@, pos as nat, value),
{
    let n = s.len();
    proof {
        lemma_pos_recompose(pos as nat);
    }
    let i = (pos / 8) as usize;
    let sh = (pos % 8) as u8;
    let m: u8 = 1u8 << sh;
    let byte = s[i];
    if value {
        s[i] = byte | m;
    } else {
        s[i] = byte & !m;
    }
}

/// Reads the raw value of `length` bits at `start` under little-endian
/// numbering.
pub(crate) fn read_le(s: &[u8], start: u16, length: u16) -> (r: u64)
    requires
        length <= 64,
        le_fits(start as nat, length as nat, s@.len()),
    ensures
        r == le_value(s@, start as nat, length as nat),
{
    let mut acc: u64 = 0;
    let mut k: u16 = 0;
    while k < length
        invariant
            length <= 64,
            k <= length,
            le_fits(start as nat, length as nat, s@.len()),
            acc == le_value(s@, start as nat, k as nat),
        decreases length - k,
    {
        proof {
            lemma_le_value_unfold_last(s@, start as nat, (k + 1) as nat);
            lemma_le_value_bound(s@, start as nat, k as nat);
            lemma_pow2_adds(k as nat, 1);
            lemma2_to64();
            lemma2_to64_rest();
            if (k + 1) < 64 {
                lemma_pow2_strictly_increases((k + 1) as nat, 64);
            }
        }
        if bit_from_slice(s, start as u64 + k as u64) {
            acc = acc + pow2_u64(k);
        }
        k = k + 1;
    }
    acc
}

/// Reads the raw value of `length` bits walked from `start` under big-endian
/// numbering.
pub(crate) fn read_be(s: &[u8], start: u16, length: u16) -> (r: u64)
    requires
        length <= 64,
        be_fits(start as nat, length as nat, s@.len()),
    ensures
        r == be_value(s@, start as nat, length as nat),
{
    let mut acc: u64 = 0;
    let mut k: u16 = 0;
    let mut pos: u64 = start as u64;
    while k < length
        invariant
            length <= 64,
            k <= length,
            be_fits(start as nat, length as nat, s@.len()),
            acc == be_value(s@, start as nat, k as nat),
            pos == be_pos(start as nat, k as nat),
            pos <= start + 15 * k,
        decreases length - k,
    {
        proof {
            lemma_be_pos_canonical(start as nat, k as nat);
            lemma_canonical_in_bounds(pos as nat, s@.len());
            lemma_be_value_unfold_last(s@, start as nat, (k + 1) as nat);
            lemma_be_value_bound(s@, start as nat, k as nat);
            lemma_pow2_adds(k as nat, 1);
            lemma2_to64();
            lemma2_to64_rest();
            if (k + 1) < 64 {
                lemma_pow2_strictly_increases((k + 1) as nat, 64);
            }
            assert(be_pos(start as nat, (k + 1) as nat) == be_next(be_pos(start as nat, k as nat)));
        }
        let b = bit_from_slice(s, pos);
        acc = 2 * acc + (if b {
            1
        } else {
            0
        });
        pos = if pos % 8 == 0 {
            (pos / 8 + 1) * 8 + 7
        } else {
            pos - 1
        };
        k = k + 1;
    }
    acc
}

/// Writes the low `length` bits of `v` at `start` under little-endian
/// numbering, least-significant bit first.
pub(crate) fn write_le(s: &mut [u8], start: u16, length: u16, v: u64)
    requires
        length <= 64,
        le_fits(start as nat, length as nat, old(s)@.len()),
        v < pow2(length as nat),
    ensures
        final(s)@ == le_written(old(s)@, start as nat, length as nat, v as nat),
{
    let ghost orig = s@;
    let mut cur: u64 = v;
    let mut k: u16 = 0;
    proof {
        lemma2_to64();
    }
    while k < length
        invariant
            length <= 64,
            k <= length,
            le_fits(start as nat, length as nat, orig.len()),
            s@.len() == orig.len(),
            cur == v as nat / pow2(k as nat),
            le_written(orig, start as nat, length as nat, v as nat) == le_written(
                s@,
                (start + k) as nat,
                (length - k) as nat,
                cur as nat,
            ),
        decreases length - k,
    {
        proof {
            lemma_pow2_pos(k as nat);
            lemma_u64_low_bits_mask_is_mod(cur, 1);
            vstd::bits::lemma_u64_shr_is_div(cur, 1);
            vstd::arithmetic::div_mod::lemma_div_denominator(v as int, pow2(k as nat) as int, 2);
            lemma_pow2_adds(k as nat, 1);
            lemma2_to64();
            lemma_with_bit(s@, (start + k) as nat, cur % 2 == 1);
        }
        let bit = (cur & 1) == 1;
        set_bit_in_slice(s, start as u64 + k as u64, bit);
        cur = cur >> 1u64;
        k = k + 1;
    }
}

/// Writes the low `length` bits of `v` along the big-endian walk from
/// `start`, most-significant bit first.
pub(crate) fn write_be(s: &mut [u8], start: u16, length: u16, v: u64)
    requires
        length <= 64,
        be_fits(start as nat, length as nat, old(s)@.len()),
        v < pow2(length as nat),
    ensures
        final(s)@ == be_written(old(s)@, start as nat, length as nat, v as nat),
{
    let ghost orig = s@;
    let mut k: u16 = 0;
    let mut pos: u64 = start as u64;
    proof {
        lemma_pow2_pos(length as nat);
        lemma_small_mod(v as nat, pow2(length as nat));
    }
    while k < length
        invariant
            length <= 64,
            k <= length,
            be_fits(start as nat, length as nat, orig.len()),
            s@.len() == orig.len(),
            v < pow2(length as nat),
            pos == be_pos(start as nat, k as nat),
            pos <= start + 15 * k,
            be_written(orig, start as nat, length as nat, v as nat) == be_written(
                s@,
                pos as nat,
                (length - k) as nat,
                (v as nat % pow2((length - k) as nat)) as nat,
            ),
        decreases length - k,
    {
        let ghost rest = (length - k - 1) as nat;
        let ghost d = pow2(rest);
        let ghost w = (v as nat % pow2((length - k) as nat)) as nat;
        proof {
            lemma_be_pos_canonical(start as nat, k as nat);
            lemma_canonical_in_bounds(pos as nat, orig.len());
            lemma_pow2_pos(rest);
            lemma_pow2_adds(rest, 1);
            lemma2_to64();
            // w splits into its top bit and remainder; both match what the
            // loop computes from v directly.
            vstd::arithmetic::div_mod::lemma_breakdown(v as int, d as int, 2);
            vstd::arithmetic::div_mod::lemma_mod_division_less_than_divisor(v as int, d as int);
            vstd::arithmetic::div_mod::lemma_mod_division_less_than_divisor(
                (v as int / d as int),
                2,
            );
            lemma_fundamental_div_mod_converse(
                w as int,
                d as int,
                (v as int / d as int) % 2,
                v as int % d as int,
            );
            vstd::bits::lemma_u64_shr_is_div(v, (length - k - 1) as u64);
            lemma_u64_low_bits_mask_is_mod(v >> ((length - k - 1) as u64), 1);
            lemma_with_bit(s@, pos as nat, w as int / d as int % 2 == 1);
            assert(be_pos(start as nat, (k + 1) as nat) == be_next(be_pos(start as nat, k as nat)));
        }
        let bit = ((v >> ((length - k - 1) as u64)) & 1) == 1;
        set_bit_in_slice(s, pos, bit);
        pos = if pos % 8 == 0 {
            (pos / 8 + 1) * 8 + 7
        } else {
            pos - 1
        };
        k = k + 1;
    }
    proof {
        lemma2_to64();
        lemma_small_mod(0, 1);
        assert(be_written(s@, pos as nat, 0, (v as nat % pow2(0)) as nat) == s@);
    }
}

} // verus!
