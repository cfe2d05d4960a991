//! Umbrella module containing useful traits and functionality.

pub use crate::data::CANRead;
pub use crate::endian::Endian;
pub use crate::mask::Mask;
pub use crate::signals::Bit;
pub use crate::signals::LengthError;
pub use crate::signals::Max;
pub use crate::signals::Min;
pub use crate::signals::Raw;
