//! Signal descriptors: a single-bit boolean signal and a raw bit-field
//! signal, each combining the bit-addressing model with the decode/encode
//! protocol.

use vstd::prelude::*;

verus! {

use crate::bitaddr::{
    be_fits, be_value, be_written, bit_at, bit_from_slice, canonical, le_fits, le_value,
    le_written, pow2_u64, read_be, read_le, set_bit_in_slice, with_bit, write_be, write_le,
    lemma_be_value_bound, lemma_le_value_bound,
};
use crate::data::{CANRead, CANWrite};
use crate::decode::{Decode, DecodeError, DefaultDecode, TryDecode};
use crate::encode::{Encode, EncodeError, TryEncode};
use crate::endian::Endian;
use crate::mask::{as_signed, Mask};
use vstd::arithmetic::power2::{
    pow2, lemma2_to64, lemma2_to64_rest, lemma_pow2_adds, lemma_pow2_pos,
    lemma_pow2_strictly_increases,
};
use vstd::arithmetic::div_mod::{lemma_mod_add_multiples_vanish, lemma_small_mod};
use vstd::bits::low_bits_mask;

/// Errors rejecting a declared bit width that can never address any buffer.
#[derive(Debug, PartialEq, Eq, Structural, Clone, Copy)]
pub enum LengthError {
    /// The declared width is zero.
    LengthZero,
    /// The declared width exceeds 64 bits.
    LengthGreater64,
}

/// A trait for the smallest value a descriptor can encode.
pub trait Min {
    /// The type of the bound.
    type Item;

    /// The value `min` returns. Verified implementations override this.
    open spec fn min_spec(&self) -> Self::Item {
        vstd::pervasive::arbitrary()
    }

    /// Returns the smallest encodable value.
    fn min(&self) -> (r: Self::Item)
        ensures
            r == self.min_spec(),
    ;
}

/// A trait for the largest value a descriptor can encode.
pub trait Max {
    /// The type of the bound.
    type Item;

    /// The value `max` returns. Verified implementations override this.
    open spec fn max_spec(&self) -> Self::Item {
        vstd::pervasive::arbitrary()
    }

    /// Returns the largest encodable value.
    fn max(&self) -> (r: Self::Item)
        ensures
            r == self.max_spec(),
    ;
}

/// A single-bit boolean signal at bit index `start`.
#[derive(Debug, Default, PartialEq, Eq, Structural, Clone, Copy)]
pub struct Bit {
    start: u16,
}

impl Bit {
    /// The bit index this signal addresses.
    pub closed spec fn start_spec(&self) -> u16 {
        self.start
    }

    /// Constructs a new Bit signal.
    pub fn new(start: u16) -> (r: Bit)
        ensures
            r.start_spec() == start,
    {
        Bit { start }
    }

    /// Returns the bit index this signal addresses.
    pub fn start(&self) -> (r: u16)
        ensures
            r == self.start_spec(),
    {
        self.start
    }
}

impl TryDecode<bool> for Bit {
    type Error = ();

    open spec fn can_decode(&self, bytes: Seq<u8>) -> bool {
        self.start_spec() < 8 * bytes.len()
    }

    open spec fn decode_spec(&self, bytes: Seq<u8>) -> bool {
        bit_at(bytes, self.start_spec() as nat)
    }

    open spec fn decode_err_spec(&self, bytes: Seq<u8>) -> () {
        ()
    }

    fn try_decode<D: CANRead>(&self, data: &D) -> (result: Result<bool, ()>) {
        let s = data.data();
        let start_byte = (self.start / 8) as usize;
        proof {
            crate::bitaddr::lemma_byte_of_pos(self.start as nat, s@.len());
        }
        if start_byte >= s.len() {
            Err(())
        } else {
            Ok(bit_from_slice(s, self.start as u64))
        }
    }
}

impl DefaultDecode<bool> for Bit {
    open spec fn default_spec(&self) -> bool {
        false
    }

    fn default_decode<D: CANRead>(&self, data: &D) -> (result: bool) {
        match self.try_decode(data) {
            Ok(value) => value,
            Err(_) => false,
        }
    }
}

impl Decode<bool> for Bit {

}

impl TryEncode<bool> for Bit {
    type Error = EncodeError;

    open spec fn can_encode(&self, bytes: Seq<u8>, value: bool) -> bool {
        self.start_spec() < 8 * bytes.len()
    }

    open spec fn encode_spec(&self, bytes: Seq<u8>, value: bool) -> Seq<u8> {
        with_bit(bytes, self.start_spec() as nat, value)
    }

    open spec fn encode_err_spec(&self, bytes: Seq<u8>, value: bool) -> EncodeError {
        EncodeError::NotEnoughData
    }

    fn try_encode<D: CANWrite>(&self, data: &mut D, value: bool) -> (result: Result<
        (),
        EncodeError,
    >) {
        let start_byte = (self.start / 8) as usize;
        let n = data.dlc();
        proof {
            crate::bitaddr::lemma_byte_of_pos(self.start as nat, n as nat);
        }
        if start_byte >= n {
            return Err(EncodeError::NotEnoughData);
        }
        let s = data.mut_data();
        set_bit_in_slice(s, self.start as u64, value);
        Ok(())
    }
}

impl Encode<bool> for Bit {

}

/// A raw bit-field signal: `length` bits at `start` under `endian`, decoded
/// and encoded as the untouched bit pattern, either zero-extended (`u64`) or
/// sign-extended (`i64`).
#[derive(Debug, PartialEq, Eq, Structural, Clone, Copy)]
pub struct Raw {
    start: u16,
    length: u16,
    endian: Endian,
}

impl Raw {
    /// Well-formedness: the declared width lies between 1 and 64 bits.
    #[verifier::type_invariant]
    pub closed spec fn wf(self) -> bool {
        1 <= self.length <= 64
    }

    /// The bit index where the signal starts.
    pub closed spec fn start_spec(&self) -> u16 {
        self.start
    }

    /// The declared width in bits.
    pub closed spec fn length_spec(&self) -> u16 {
        self.length
    }

    /// The bit-numbering convention.
    pub closed spec fn endian_spec(&self) -> Endian {
        self.endian
    }

    /// Whether the declared span fits a buffer of `dlc` bytes: the
    /// availability check.
    pub open spec fn fits(&self, dlc: nat) -> bool {
        match self.endian_spec() {
            Endian::Little => le_fits(self.start_spec() as nat, self.length_spec() as nat, dlc),
            Endian::Big => be_fits(self.start_spec() as nat, self.length_spec() as nat, dlc),
        }
    }

    /// The raw bit pattern this descriptor reads out of `bytes`, as an
    /// unsigned value.
    pub open spec fn raw_value(&self, bytes: Seq<u8>) -> nat {
        match self.endian_spec() {
            Endian::Little => le_value(bytes, self.start_spec() as nat, self.length_spec() as nat),
            Endian::Big => be_value(bytes, self.start_spec() as nat, self.length_spec() as nat),
        }
    }

    /// `bytes` with the low `length` bits of `v` written into the declared
    /// span.
    pub open spec fn written(&self, bytes: Seq<u8>, v: nat) -> Seq<u8> {
        match self.endian_spec() {
            Endian::Little => le_written(
                bytes,
                self.start_spec() as nat,
                self.length_spec() as nat,
                v,
            ),
            Endian::Big => be_written(bytes, self.start_spec() as nat, self.length_spec() as nat, v),
        }
    }

    /// Constructs a new Raw signal, rejecting widths of zero or of more than
    /// 64 bits.
    pub fn new(start: u16, length: u16, endian: Endian) -> (result: Result<Raw, LengthError>)
        ensures
            length == 0 ==> result == Err::<Raw, LengthError>(LengthError::LengthZero),
            length > 64 ==> result == Err::<Raw, LengthError>(LengthError::LengthGreater64),
            1 <= length <= 64 ==> (result matches Ok(r) && r.start_spec() == start
                && r.length_spec() == length && r.endian_spec() == endian),
    {
        if length == 0 {
            Err(LengthError::LengthZero)
        } else if length > 64 {
            Err(LengthError::LengthGreater64)
        } else {
            Ok(Raw { start, length, endian })
        }
    }

    /// Returns the bit index where the signal starts.
    pub fn start(&self) -> (r: u16)
        ensures
            r == self.start_spec(),
    {
        self.start
    }

    /// Returns the declared width in bits.
    pub fn length(&self) -> (r: u16)
        ensures
            r == self.length_spec(),
    {
        self.length
    }

    /// Performs the availability check against a buffer of `n` bytes. A
    /// buffer of 8400 bytes or more holds every addressable span, since the
    /// highest bit position a descriptor can name stays below 8 * 8400; the
    /// comparison for smaller buffers then fits 32-bit arithmetic.
    fn check_fits(&self, n: usize) -> (r: bool)
        ensures
            r == self.fits(n as nat),
    {
        proof {
            use_type_invariant(self);
        }
        match self.endian {
            Endian::Little => {
                if n >= 8400 {
                    true
                } else {
                    (self.start as u32) + (self.length as u32) <= 8 * (n as u32)
                }
            },
            Endian::Big => {
                let cs: u32 = 8 * (self.start as u32 / 8) + 7 - (self.start as u32 % 8);
                if n >= 8400 {
                    true
                } else {
                    cs + (self.length as u32) <= 8 * (n as u32)
                }
            },
        }
    }
}

impl Default for Raw {
    /// The default raw signal: one little-endian bit at index zero.
    fn default() -> (r: Self)
        ensures
            r.start_spec() == 0,
            r.length_spec() == 1,
            r.endian_spec() == Endian::Little,
    {
        Raw { start: 0, length: 1, endian: Endian::Little }
    }
}

impl Min for Raw {
    type Item = u64;

    open spec fn min_spec(&self) -> u64 {
        0
    }

    fn min(&self) -> (r: u64) {
        0
    }
}

impl Max for Raw {
    type Item = u64;

    open spec fn max_spec(&self) -> u64 {
        low_bits_mask(self.length_spec() as nat) as u64
    }

    fn max(&self) -> (r: u64) {
        proof {
            use_type_invariant(self);
            lemma2_to64();
            lemma_pow2_pos(self.length as nat);
            if (self.length as nat) < 64 {
                lemma_pow2_strictly_increases(self.length as nat, 64);
            }
        }
        <u64 as Mask>::mask(self.length, 0)
    }
}

impl TryDecode<u64> for Raw {
    type Error = DecodeError;

    open spec fn can_decode(&self, bytes: Seq<u8>) -> bool {
        self.fits(bytes.len())
    }

    open spec fn decode_spec(&self, bytes: Seq<u8>) -> u64 {
        self.raw_value(bytes) as u64
    }

    open spec fn decode_err_spec(&self, bytes: Seq<u8>) -> DecodeError {
        DecodeError::NotEnoughData
    }

    fn try_decode<D: CANRead>(&self, data: &D) -> (result: Result<u64, DecodeError>) {
        proof {
            use_type_invariant(self);
        }
        let s = data.data();
        if !self.check_fits(s.len()) {
            return Err(DecodeError::NotEnoughData);
        }
        match self.endian {
            Endian::Little => Ok(read_le(s, self.start, self.length)),
            Endian::Big => Ok(read_be(s, self.start, self.length)),
        }
    }
}

impl DefaultDecode<u64> for Raw {
    open spec fn default_spec(&self) -> u64 {
        0
    }

    fn default_decode<D: CANRead>(&self, data: &D) -> (result: u64) {
        match self.try_decode(data) {
            Ok(value) => value,
            Err(_) => 0,
        }
    }
}

impl Decode<u64> for Raw {

}

impl TryEncode<u64> for Raw {
    type Error = EncodeError;

    open spec fn can_encode(&self, bytes: Seq<u8>, value: u64) -> bool {
        value <= low_bits_mask(self.length_spec() as nat) && self.fits(bytes.len())
    }

    open spec fn encode_spec(&self, bytes: Seq<u8>, value: u64) -> Seq<u8> {
        self.written(bytes, value as nat)
    }

    open spec fn encode_err_spec(&self, bytes: Seq<u8>, value: u64) -> EncodeError {
        if value > low_bits_mask(self.length_spec() as nat) {
            EncodeError::MaxError
        } else {
            EncodeError::NotEnoughData
        }
    }

    fn try_encode<D: CANWrite>(&self, data: &mut D, value: u64) -> (result: Result<
        (),
        EncodeError,
    >) {
        proof {
            use_type_invariant(self);
            lemma2_to64();
            lemma_pow2_pos(self.length as nat);
            if (self.length as nat) < 64 {
                lemma_pow2_strictly_increases(self.length as nat, 64);
            }
        }
        let max = <u64 as Mask>::mask(self.length, 0);
        if value > max {
            return Err(EncodeError::MaxError);
        }
        let n = data.dlc();
        if !self.check_fits(n) {
            return Err(EncodeError::NotEnoughData);
        }
        let s = data.mut_data();
        match self.endian {
            Endian::Little => write_le(s, self.start, self.length, value),
            Endian::Big => write_be(s, self.start, self.length, value),
        }
        Ok(())
    }
}

impl Encode<u64> for Raw {

}

/// Sign-extends a raw pattern of `length` bits into its two's-complement
/// reading.
fn sign_extend(raw: u64, length: u16) -> (r: i64)
    requires
        1 <= length <= 64,
        raw < pow2(length as nat),
    ensures
        r as int == as_signed(raw as nat, length as nat),
{
    proof {
        lemma2_to64();
        lemma2_to64_rest();
    }
    if length == 64 {
        if raw < 0x8000_0000_0000_0000u64 {
            raw as i64
        } else {
            ((raw as i128) - 0x1_0000_0000_0000_0000i128) as i64
        }
    } else {
        proof {
            lemma_pow2_adds((length - 1) as nat, 1);
            if ((length - 1) as nat) < 63 {
                lemma_pow2_strictly_increases((length - 1) as nat, 63);
            }
        }
        let half = pow2_u64(length - 1);
        if raw < half {
            raw as i64
        } else {
            ((raw as i128) - (half as i128) - (half as i128)) as i64
        }
    }
}

/// Sign extension: a raw pattern with its top bit set reads as a negative
/// value; with the top bit clear it reads as the pattern itself, which is
/// non-negative.
pub proof fn lemma_sign_extension(raw: nat, length: nat)
    requires
        1 <= length,
        raw < pow2(length),
    ensures
        pow2((length - 1) as nat) <= raw ==> as_signed(raw, length) < 0,
        raw < pow2((length - 1) as nat) ==> as_signed(raw, length) == raw,
{
}

impl Raw {
    /// The smallest two's-complement value of the declared width.
    pub open spec fn min_signed(&self) -> int {
        -(pow2((self.length_spec() - 1) as nat) as int)
    }

    /// The largest two's-complement value of the declared width.
    pub open spec fn max_signed(&self) -> int {
        pow2((self.length_spec() - 1) as nat) - 1
    }
}

/// The two's-complement reading of any pattern of the declared width stays
/// inside the 64-bit signed range.
proof fn lemma_as_signed_range(v: nat, length: nat)
    requires
        1 <= length <= 64,
        v < pow2(length),
    ensures
        -0x8000_0000_0000_0000 <= as_signed(v, length) < 0x8000_0000_0000_0000,
{
    lemma2_to64();
    lemma2_to64_rest();
    lemma_pow2_adds((length - 1) as nat, 1);
    if ((length - 1) as nat) < 63 {
        lemma_pow2_strictly_increases((length - 1) as nat, 63);
    }
}

impl TryDecode<i64> for Raw {
    type Error = DecodeError;

    open spec fn can_decode(&self, bytes: Seq<u8>) -> bool {
        self.fits(bytes.len())
    }

    open spec fn decode_spec(&self, bytes: Seq<u8>) -> i64 {
        as_signed(self.raw_value(bytes), self.length_spec() as nat) as i64
    }

    open spec fn decode_err_spec(&self, bytes: Seq<u8>) -> DecodeError {
        DecodeError::NotEnoughData
    }

    fn try_decode<D: CANRead>(&self, data: &D) -> (result: Result<i64, DecodeError>) {
        proof {
            use_type_invariant(self);
        }
        let s = data.data();
        if !self.check_fits(s.len()) {
            return Err(DecodeError::NotEnoughData);
        }
        let raw = match self.endian {
            Endian::Little => read_le(s, self.start, self.length),
            Endian::Big => read_be(s, self.start, self.length),
        };
        proof {
            match self.endian_spec() {
                Endian::Little => lemma_le_value_bound(s@, self.start as nat, self.length as nat),
                Endian::Big => lemma_be_value_bound(s@, self.start as nat, self.length as nat),
            }
            lemma_as_signed_range(raw as nat, self.length as nat);
        }
        Ok(sign_extend(raw, self.length))
    }
}

impl DefaultDecode<i64> for Raw {
    open spec fn default_spec(&self) -> i64 {
        0
    }

    fn default_decode<D: CANRead>(&self, data: &D) -> (result: i64) {
        match self.try_decode(data) {
            Ok(value) => value,
            Err(_) => 0,
        }
    }
}

impl Decode<i64> for Raw {

}

impl TryEncode<i64> for Raw {
    type Error = EncodeError;

    open spec fn can_encode(&self, bytes: Seq<u8>, value: i64) -> bool {
        self.min_signed() <= value <= self.max_signed() && self.fits(bytes.len())
    }

    open spec fn encode_spec(&self, bytes: Seq<u8>, value: i64) -> Seq<u8> {
        self.written(bytes, (value as int % pow2(self.length_spec() as nat) as int) as nat)
    }

    open spec fn encode_err_spec(&self, bytes: Seq<u8>, value: i64) -> EncodeError {
        if value < self.min_signed() {
            EncodeError::MinError
        } else if value > self.max_signed() {
            EncodeError::MaxError
        } else {
            EncodeError::NotEnoughData
        }
    }

    fn try_encode<D: CANWrite>(&self, data: &mut D, value: i64) -> (result: Result<
        (),
        EncodeError,
    >) {
        proof {
            use_type_invariant(self);
            lemma2_to64();
            lemma2_to64_rest();
            lemma_pow2_pos((self.length - 1) as nat);
            lemma_pow2_adds((self.length - 1) as nat, 1);
            if ((self.length - 1) as nat) < 63 {
                lemma_pow2_strictly_increases((self.length - 1) as nat, 63);
            }
            if (self.length as nat) < 64 {
                lemma_pow2_strictly_increases(self.length as nat, 64);
            }
        }
        let bounds: (i64, i64) = if self.length == 64 {
            (i64::MIN, i64::MAX)
        } else {
            let half = pow2_u64(self.length - 1);
            (-(half as i64), (half - 1) as i64)
        };
        if value < bounds.0 {
            return Err(EncodeError::MinError);
        }
        if value > bounds.1 {
            return Err(EncodeError::MaxError);
        }
        let n = data.dlc();
        if !self.check_fits(n) {
            return Err(EncodeError::NotEnoughData);
        }
        let ghost width = pow2(self.length as nat) as int;
        let pattern: u64 = if value >= 0 {
            proof {
                lemma_small_mod(value as nat, pow2(self.length as nat));
            }
            value as u64
        } else {
            let m = <u64 as Mask>::mask(self.length, 0);
            proof {
                lemma_mod_add_multiples_vanish(value as int, width);
                lemma_small_mod((value as int + width) as nat, pow2(self.length as nat));
            }
            ((value as i128) + (m as i128) + 1) as u64
        };
        let s = data.mut_data();
        match self.endian {
            Endian::Little => write_le(s, self.start, self.length, pattern),
            Endian::Big => write_be(s, self.start, self.length, pattern),
        }
        Ok(())
    }
}

impl Encode<i64> for Raw {

}

impl Raw {
    /// Whether physical bit `pos` belongs to the declared span.
    pub open spec fn in_span(&self, pos: nat) -> bool {
        match self.endian_spec() {
            Endian::Little => self.start_spec() <= pos < self.start_spec() + self.length_spec(),
            Endian::Big => canonical(self.start_spec() as nat) <= canonical(pos) < canonical(
                self.start_spec() as nat,
            ) + self.length_spec(),
        }
    }
}

/// Round trip at the signal level: writing a raw value of the declared width
/// and reading the span again returns the value; the buffer keeps its
/// length, and every bit outside the span keeps its old value.
pub proof fn lemma_raw_round_trip(sig: Raw, bytes: Seq<u8>, value: nat)
    requires
        1 <= sig.length_spec() <= 64,
        value < pow2(sig.length_spec() as nat),
        sig.fits(bytes.len()),
    ensures
        sig.raw_value(sig.written(bytes, value)) == value,
        sig.written(bytes, value).len() == bytes.len(),
        forall|p: nat|
            p < 8 * bytes.len() && !sig.in_span(p) ==> bit_at(sig.written(bytes, value), p)
                == bit_at(bytes, p),
{
    match sig.endian_spec() {
        Endian::Little => crate::bitaddr::lemma_round_trip_little(
            bytes,
            sig.start_spec() as nat,
            sig.length_spec() as nat,
            value,
        ),
        Endian::Big => crate::bitaddr::lemma_round_trip_big(
            bytes,
            sig.start_spec() as nat,
            sig.length_spec() as nat,
            value,
        ),
    }
}

/// The two's-complement pattern of a value within the declared bounds reads
/// back as that value.
proof fn lemma_as_signed_mod(value: int, length: nat)
    requires
        1 <= length <= 64,
        -(pow2((length - 1) as nat) as int) <= value < pow2((length - 1) as nat),
    ensures
        0 <= value % (pow2(length) as int) < pow2(length),
        as_signed((value % (pow2(length) as int)) as nat, length) == value,
{
    lemma_pow2_pos(length);
    lemma_pow2_pos((length - 1) as nat);
    lemma_pow2_adds((length - 1) as nat, 1);
    lemma2_to64();
    let width = pow2(length) as int;
    if value >= 0 {
        lemma_small_mod(value as nat, pow2(length));
    } else {
        lemma_mod_add_multiples_vanish(value, width);
        lemma_small_mod((value + width) as nat, pow2(length));
    }
}

/// Round trip of the sign-extended view: a signed value within the declared
/// bounds encodes to a pattern of the declared width that decodes back to
/// the same value.
pub proof fn lemma_raw_round_trip_signed(sig: Raw, bytes: Seq<u8>, value: int)
    requires
        1 <= sig.length_spec() <= 64,
        sig.min_signed() <= value <= sig.max_signed(),
        sig.fits(bytes.len()),
    ensures
        as_signed(
            sig.raw_value(
                sig.written(bytes, (value % (pow2(sig.length_spec() as nat) as int)) as nat),
            ),
            sig.length_spec() as nat,
        ) == value,
{
    let length = sig.length_spec() as nat;
    lemma_as_signed_mod(value, length);
    lemma_raw_round_trip(sig, bytes, (value % (pow2(length) as int)) as nat);
}

} // verus!
