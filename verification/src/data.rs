//! Utility traits for accessing and mutating CAN-bus data.
//!
//! The [CANRead] trait provides methods to retrieve the DLC, the number of
//! available bytes, and a read-only data slice. The [CANWrite] trait
//! additionally allows mutating the underlying bytes.

use vstd::prelude::*;

verus! {

/// A trait providing methods for accessing the underlying bytes of some
/// CAN-bus data.
pub trait CANRead {
    /// The byte sequence the buffer holds. Verified implementations override
    /// this; the default only spares unverified implementations a ghost item.
    open spec fn bytes(&self) -> Seq<u8> {
        Seq::<u8>::empty()
    }

    /// Returns a slice representing the accessible bytes.
    fn data(&self) -> (r: &[u8])
        ensures
            r@ == self.bytes(),
    ;

    /// Returns the number of accessible bytes.
    fn dlc(&self) -> (r: usize)
        ensures
            r == self.bytes().len(),
    ;
}

/// A trait providing methods for accessing the underlying data in a mutable
/// fashion.
pub trait CANWrite: CANRead {
    /// Returns a mutable slice representing the mutable data.
    fn mut_data(&mut self) -> (r: &mut [u8])
        ensures
            r@ == old(self).bytes(),
            final(self).bytes() == final(r)@,
    ;
}

impl CANRead for Vec<u8> {
    open spec fn bytes(&self) -> Seq<u8> {
        self@
    }

    fn data(&self) -> (r: &[u8]) {
        self.as_slice()
    }

    fn dlc(&self) -> (r: usize) {
        self.len()
    }
}

impl CANWrite for Vec<u8> {
    fn mut_data(&mut self) -> (r: &mut [u8]) {
        self.as_mut_slice()
    }
}

impl CANRead for &[u8] {
    open spec fn bytes(&self) -> Seq<u8> {
        (*self)@
    }

    fn data(&self) -> (r: &[u8]) {
        self
    }

    fn dlc(&self) -> (r: usize) {
        self.len()
    }
}

impl CANRead for &mut [u8] {
    open spec fn bytes(&self) -> Seq<u8> {
        (**self)@
    }

    fn data(&self) -> (r: &[u8]) {
        self
    }

    fn dlc(&self) -> (r: usize) {
        self.len()
    }
}

impl CANWrite for &mut [u8] {
    fn mut_data(&mut self) -> (r: &mut [u8]) {
        self
    }
}

impl<const N: usize> CANRead for [u8; N] {
    open spec fn bytes(&self) -> Seq<u8> {
        self@
    }

    fn data(&self) -> (r: &[u8]) {
        self.as_slice()
    }

    fn dlc(&self) -> (r: usize) {
        self.as_slice().len()
    }
}

impl<const N: usize> CANWrite for [u8; N] {
    fn mut_data(&mut self) -> (r: &mut [u8]) {
        self
    }
}

} // verus!
