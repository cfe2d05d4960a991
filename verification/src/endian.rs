use vstd::prelude::*;

verus! {

/// Defines the two bit-numbering conventions considered for decoding and
/// encoding multi-bit signals.
#[derive(Debug, PartialEq, Eq, Structural, Clone, Copy)]
pub enum Endian {
    /// Bit significance increases with the bit index.
    Little,
    /// Bit significance decreases from bit 7 to bit 0 inside each byte and
    /// continues at bit 7 of the following byte.
    Big,
}

impl Default for Endian {
    fn default() -> (r: Self)
        ensures
            r == Endian::Little,
    {
        Endian::Little
    }
}

} // verus!
