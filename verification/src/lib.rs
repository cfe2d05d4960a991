//! Tools for working with CAN-bus frame data: byte-buffer access traits,
//! bit-mask construction, bit-addressed signal decoding and encoding under
//! both bit-numbering conventions, and parsing of candump-style log lines.

pub mod data;
pub use data::{CANRead, CANWrite};

pub mod endian;
pub use endian::Endian;

pub mod mask;
pub use mask::Mask;

pub mod bitaddr;

pub mod decode;
pub use decode::{Decode, DecodeError, DefaultDecode, TryDecode};

pub mod encode;
pub use encode::{Encode, EncodeError, TryEncode};

pub mod signals;
pub use signals::{Bit, LengthError, Max, Min, Raw};

pub mod text;

pub mod logging;

pub mod logs;

pub mod prelude;
