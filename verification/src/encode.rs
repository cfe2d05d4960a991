//! Utility traits for encoding CAN-bus data.
//!
//! The module provides two traits: [TryEncode] and [Encode]. `try_encode`
//! models the possibility that the encoding fails, whereas `encode` asks the
//! caller to rule failure out up front; the unverified counterpart of that
//! obligation is a fatal error.

use vstd::prelude::*;

verus! {

use crate::data::CANWrite;

/// Type representing possible encoding errors.
#[derive(Debug, PartialEq, Eq, Structural, Clone, Copy)]
pub enum EncodeError {
    /// There is not enough byte data available to encode a value.
    NotEnoughData,
    /// The value to encode is smaller than the minimum value encodable.
    MinError,
    /// The value to encode is greater than the maximum value encodable.
    MaxError,
}

/// A trait modeling the failable encoding of data.
pub trait TryEncode<T> {
    /// A type modeling the different possible failures of the encoding.
    type Error;

    /// Whether `value` can be written into a buffer holding `bytes`.
    /// Verified implementations override this and the two functions below;
    /// the defaults only spare unverified implementations the ghost items.
    open spec fn can_encode(&self, bytes: Seq<u8>, value: T) -> bool {
        false
    }

    /// The buffer contents after a successful encode.
    open spec fn encode_spec(&self, bytes: Seq<u8>, value: T) -> Seq<u8> {
        bytes
    }

    /// The error reported when encoding fails.
    open spec fn encode_err_spec(&self, bytes: Seq<u8>, value: T) -> Self::Error {
        vstd::pervasive::arbitrary()
    }

    /// Tries to encode `value` into `data`. A failed encode leaves the buffer
    /// unchanged.
    fn try_encode<D: CANWrite>(&self, data: &mut D, value: T) -> (result: Result<
        (),
        Self::Error,
    >)
        ensures
            self.can_encode(old(data).bytes(), value) ==> result == Ok::<(), Self::Error>(())
                && final(data).bytes() == self.encode_spec(old(data).bytes(), value),
            !self.can_encode(old(data).bytes(), value) ==> result == Err::<(), Self::Error>(
                self.encode_err_spec(old(data).bytes(), value),
            ) && final(data).bytes() == old(data).bytes(),
    ;
}

/// A trait modeling the not failable encoding of data.
///
/// [Encode] is a sub-trait of [TryEncode]; `encode` is implemented using
/// `try_encode`.
pub trait Encode<T>: TryEncode<T> {
    /// Encodes `value` into the CAN-bus data `data`. The caller establishes
    /// up front that the encode cannot fail; outside verified code a failure
    /// here is fatal.
    fn encode<D: CANWrite>(&self, data: &mut D, value: T)
        requires
            self.can_encode(old(data).bytes(), value),
        ensures
            final(data).bytes() == self.encode_spec(old(data).bytes(), value),
    {
        match self.try_encode(data, value) {
            Ok(_) => (),
            Err(_) => vstd::pervasive::unreached(),
        }
    }
}

} // verus!
