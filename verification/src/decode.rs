//! Utility traits for decoding CAN-bus data.
//!
//! The module provides three traits: [TryDecode], [DefaultDecode], and
//! [Decode]. `try_decode` models the possibility of the decoding to fail.
//! `default_decode` returns a default value if the decoding fails. Finally,
//! `decode` asks the caller to rule failure out up front; the unverified
//! counterpart of that obligation is a fatal error.

use vstd::prelude::*;

verus! {

use crate::data::CANRead;

/// Type representing possible decoding errors.
#[derive(Debug, PartialEq, Eq, Structural, Clone, Copy)]
pub enum DecodeError {
    /// There is not enough byte data available from which one can decode a
    /// value.
    NotEnoughData,
}

/// A trait modeling the failable decoding of data.
pub trait TryDecode<T> {
    /// A type modeling the different possible failures of the decoding.
    type Error;

    /// Whether a buffer holding `bytes` has enough data to decode a value.
    /// Verified implementations override this and the two functions below;
    /// the defaults only spare unverified implementations the ghost items.
    open spec fn can_decode(&self, bytes: Seq<u8>) -> bool {
        false
    }

    /// The value decoded from `bytes`, meaningful when `can_decode` holds.
    open spec fn decode_spec(&self, bytes: Seq<u8>) -> T {
        vstd::pervasive::arbitrary()
    }

    /// The error reported when `can_decode` does not hold.
    open spec fn decode_err_spec(&self, bytes: Seq<u8>) -> Self::Error {
        vstd::pervasive::arbitrary()
    }

    /// Tries to decode a value.
    fn try_decode<D: CANRead>(&self, data: &D) -> (result: Result<T, Self::Error>)
        ensures
            self.can_decode(data.bytes()) ==> result == Ok::<T, Self::Error>(
                self.decode_spec(data.bytes()),
            ),
            !self.can_decode(data.bytes()) ==> result == Err::<T, Self::Error>(
                self.decode_err_spec(data.bytes()),
            ),
    ;
}

/// A trait modeling decoding that falls back to a default value.
pub trait DefaultDecode<T: Default>: TryDecode<T> {
    /// The fallback value returned when the data is not decodable. Verified
    /// implementations override this.
    open spec fn default_spec(&self) -> T {
        vstd::pervasive::arbitrary()
    }

    /// Tries to decode a value. If the data is not decodable, a default value
    /// is returned. Otherwise, the decoded value is returned.
    fn default_decode<D: CANRead>(&self, data: &D) -> (result: T)
        ensures
            result == if self.can_decode(data.bytes()) {
                self.decode_spec(data.bytes())
            } else {
                self.default_spec()
            },
    ;
}

/// A trait modeling the not failable decoding of data.
pub trait Decode<T>: TryDecode<T> {
    /// Decodes the data. The caller establishes up front that the buffer is
    /// large enough; outside verified code a failure here is fatal.
    fn decode<D: CANRead>(&self, data: &D) -> (result: T)
        requires
            self.can_decode(data.bytes()),
        ensures
            result == self.decode_spec(data.bytes()),
    {
        match self.try_decode(data) {
            Ok(value) => value,
            Err(_) => vstd::pervasive::unreached(),
        }
    }
}

} // verus!
