//! The older flavor of the candump logfile types: the same line grammar as
//! [crate::logging], with an infallible raw-entry constructor and its own
//! error names.

use vstd::prelude::*;

verus! {

use crate::data::CANRead;
use crate::logging::{entry_line_spec, CANDumpLogParts};
use crate::text::{
    append_bytes_hex, append_decimal, append_hex_fixed, bytes_of_pieces, num_text_ok,
    num_text_val, parse_byte_pieces, parse_uint, piece_views, split_on, split_str,
};

/// Errors a candump raw line can earn while being parsed.
#[derive(Debug, PartialEq, Eq, Structural, Clone, Copy)]
pub enum CANDumpEntryParseError {
    /// The line has no interface piece.
    MissingInterfaceData,
    /// The line has no frame id piece, or the piece is not a hexadecimal
    /// number.
    MissingCanIdData,
    /// The line has no length piece.
    MissingDlcData,
    /// The length piece does not hold a decimal number.
    ParseDlcError,
    /// The frame id piece is not a hexadecimal number.
    ParseCanIdError,
    /// A payload piece is not a hexadecimal byte.
    ParseCanDataError,
    /// The declared length does not match the number of payload bytes.
    DlcDataMismatch,
}

/// One entry of the candump raw format.
#[derive(Debug, PartialEq)]
pub struct CANDumpEntry {
    interface: String,
    can_id: u32,
    data: Vec<u8>,
}

impl CANRead for CANDumpEntry {
    open spec fn bytes(&self) -> Seq<u8> {
        self.data_spec()
    }

    fn data(&self) -> (r: &[u8]) {
        self.data.as_slice()
    }

    fn dlc(&self) -> (r: usize) {
        self.data.len()
    }
}

/// What parsing a candump raw line yields under this module's error names;
/// unlike [crate::logging::parse_entry_spec], an empty interface is accepted.
pub open spec fn parse_entry_spec(s: Seq<char>) -> Result<
    (Seq<char>, u32, Seq<u8>),
    CANDumpEntryParseError,
> {
    let pieces = split_on(s, ' ');
    if pieces.len() < 2 || !num_text_ok(pieces[1], 16, 0xFF_FF_FF_FF) {
        Err(CANDumpEntryParseError::MissingCanIdData)
    } else if pieces.len() < 3 {
        Err(CANDumpEntryParseError::MissingDlcData)
    } else if pieces[2].len() < 2 || !num_text_ok(
        pieces[2].subrange(1, pieces[2].len() - 1),
        10,
        0xFF_FF_FF_FF_FF_FF_FF_FF,
    ) {
        Err(CANDumpEntryParseError::ParseDlcError)
    } else if bytes_of_pieces(pieces, 3) is None {
        Err(CANDumpEntryParseError::ParseCanDataError)
    } else if num_text_val(pieces[2].subrange(1, pieces[2].len() - 1), 10) != bytes_of_pieces(
        pieces,
        3,
    ).unwrap().len() {
        Err(CANDumpEntryParseError::DlcDataMismatch)
    } else {
        Ok((pieces[0], num_text_val(pieces[1], 16) as u32, bytes_of_pieces(pieces, 3).unwrap()))
    }
}

impl CANDumpEntry {
    /// The interface name.
    pub closed spec fn interface_spec(&self) -> Seq<char> {
        self.interface@
    }

    /// The frame id.
    pub closed spec fn can_id_spec(&self) -> u32 {
        self.can_id
    }

    /// The payload bytes.
    pub closed spec fn data_spec(&self) -> Seq<u8> {
        self.data@
    }

    /// Constructs an entry; any interface name is accepted.
    pub fn new(interface: &str, can_id: u32, data: Vec<u8>) -> (result: Self)
        ensures
            result.interface_spec() == interface@,
            result.can_id_spec() == can_id,
            result.data_spec() == data@,
    {
        CANDumpEntry { interface: interface.to_owned(), can_id, data }
    }

    /// Parses one candump raw line.
    pub fn parse(s: &str) -> (result: Result<Self, CANDumpEntryParseError>)
        ensures
            parse_entry_spec(s@) matches Ok(t) ==> (result matches Ok(e) && e.interface_spec()
                == t.0 && e.can_id_spec() == t.1 && e.data_spec() == t.2),
            parse_entry_spec(s@) matches Err(err) ==> result == Err::<Self,
            CANDumpEntryParseError>(err),
    {
        let ghost spec_pieces = split_on(s@, ' ');
        let pieces = split_str(s, ' ');
        proof {
            assert(piece_views(pieces@) =~= spec_pieces);
        }
        if pieces.len() < 2 {
            return Err(CANDumpEntryParseError::MissingCanIdData);
        }
        let can_id = match parse_uint(pieces[1].as_str(), 16, 0xFF_FF_FF_FF) {
            Some(v) => v as u32,
            None => {
                return Err(CANDumpEntryParseError::MissingCanIdData);
            },
        };
        if pieces.len() < 3 {
            return Err(CANDumpEntryParseError::MissingDlcData);
        }
        let dlc_len = pieces[2].as_str().unicode_len();
        if dlc_len < 2 {
            return Err(CANDumpEntryParseError::ParseDlcError);
        }
        let dlc_digits = pieces[2].as_str().substring_char(1, dlc_len - 1);
        let dlc = match parse_uint(dlc_digits, 10, 0xFF_FF_FF_FF_FF_FF_FF_FF) {
            Some(v) => v,
            None => {
                return Err(CANDumpEntryParseError::ParseDlcError);
            },
        };
        let data = match parse_byte_pieces(&pieces, 3) {
            Some(d) => d,
            None => {
                return Err(CANDumpEntryParseError::ParseCanDataError);
            },
        };
        if dlc != data.len() as u64 {
            return Err(CANDumpEntryParseError::DlcDataMismatch);
        }
        Ok(CANDumpEntry::new(pieces[0].as_str(), can_id, data))
    }

    /// Renders the entry as one candump raw line.
    pub fn to_string(&self) -> (r: String)
        ensures
            r@ == entry_line_spec(self.interface_spec(), self.can_id_spec(), self.data_spec()),
    {
        let mut out = String::new();
        out.append(self.interface.as_str());
        proof {
            reveal_strlit(" ");
            reveal_strlit(" [");
            reveal_strlit("] ");
        }
        out.append(" ");
        append_hex_fixed(&mut out, self.can_id as u64, 8);
        out.append(" [");
        append_decimal(&mut out, self.data.len() as u64);
        out.append("] ");
        append_bytes_hex(&mut out, self.data.as_slice(), true);
        proof {
            assert(out@ =~= entry_line_spec(
                self.interface_spec(),
                self.can_id_spec(),
                self.data_spec(),
            ));
        }
        out
    }
}

impl core::str::FromStr for CANDumpEntry {
    type Err = CANDumpEntryParseError;

    fn from_str(s: &str) -> Result<Self, Self::Err> {
        CANDumpEntry::parse(s)
    }
}

/// Errors a candump log line can earn while being parsed, under this
/// module's names.
#[derive(Debug, PartialEq, Eq, Structural, Clone, Copy)]
pub enum CANDumpLogEntryParseError {
    /// The line has no timestamp piece.
    MissingTimestampData,
    /// The timestamp piece does not hold a number.
    ParseTimestampError,
    /// The line has no interface piece.
    MissingInterfaceData,
    /// The line has no `id#data` compound piece.
    MissingCompoundCanData,
    /// The compound piece has no frame id part.
    MissingCanIdData,
    /// The compound piece has no payload part.
    MissingCanData,
    /// The flagged payload part holds no flag digit.
    MissingFlagData,
    /// The frame id part is not a hexadecimal number.
    ParseCanIdError,
    /// A payload group is not a hexadecimal byte.
    ParseCanDataError,
    /// The flag is not a hexadecimal digit.
    ParseFlagError,
    /// The compound piece has an unexpected shape.
    Unspecified,
}

/// The name this module gives each log-line parse error of [crate::logging].
pub open spec fn log_err_named(e: crate::logging::CANDumpLogEntryParseError)
    -> CANDumpLogEntryParseError {
    match e {
        crate::logging::CANDumpLogEntryParseError::MissingTimestampData
            => CANDumpLogEntryParseError::MissingTimestampData,
        crate::logging::CANDumpLogEntryParseError::ParseTimestampError
            => CANDumpLogEntryParseError::ParseTimestampError,
        crate::logging::CANDumpLogEntryParseError::MissingInterfaceData
            => CANDumpLogEntryParseError::MissingInterfaceData,
        crate::logging::CANDumpLogEntryParseError::MissingCompoundCanData
            => CANDumpLogEntryParseError::MissingCompoundCanData,
        crate::logging::CANDumpLogEntryParseError::MissingCanIdData
            => CANDumpLogEntryParseError::MissingCanIdData,
        crate::logging::CANDumpLogEntryParseError::MissingCanData
            => CANDumpLogEntryParseError::MissingCanData,
        crate::logging::CANDumpLogEntryParseError::MissingFlagData
            => CANDumpLogEntryParseError::MissingFlagData,
        crate::logging::CANDumpLogEntryParseError::ParseCanIdError
            => CANDumpLogEntryParseError::ParseCanIdError,
        crate::logging::CANDumpLogEntryParseError::ParseCanDataError
            => CANDumpLogEntryParseError::ParseCanDataError,
        crate::logging::CANDumpLogEntryParseError::ParseFlagError
            => CANDumpLogEntryParseError::ParseFlagError,
        crate::logging::CANDumpLogEntryParseError::ConstructionError(_)
            => CANDumpLogEntryParseError::Unspecified,
        crate::logging::CANDumpLogEntryParseError::Unspecified
            => CANDumpLogEntryParseError::Unspecified,
    }
}

/// The timestamp text of a candump log line, under this module's error
/// names.
pub open spec fn log_timestamp_text_spec(s: Seq<char>) -> Result<
    Seq<char>,
    CANDumpLogEntryParseError,
> {
    match crate::logging::log_timestamp_text_spec(s) {
        Ok(t) => Ok(t),
        Err(e) => Err(log_err_named(e)),
    }
}

/// What parsing the rest of a candump log line yields, under this module's
/// error names.
pub open spec fn parse_log_rest_spec(s: Seq<char>) -> Result<
    (Seq<char>, u32, Seq<u8>, Option<u8>),
    CANDumpLogEntryParseError,
> {
    match crate::logging::parse_log_rest_spec(s) {
        Ok(t) => Ok(t),
        Err(e) => Err(log_err_named(e)),
    }
}

/// Renames one log-line parse error into this module's enum.
fn name_log_err(e: crate::logging::CANDumpLogEntryParseError) -> (r: CANDumpLogEntryParseError)
    ensures
        r == log_err_named(e),
{
    match e {
        crate::logging::CANDumpLogEntryParseError::MissingTimestampData
            => CANDumpLogEntryParseError::MissingTimestampData,
        crate::logging::CANDumpLogEntryParseError::ParseTimestampError
            => CANDumpLogEntryParseError::ParseTimestampError,
        crate::logging::CANDumpLogEntryParseError::MissingInterfaceData
            => CANDumpLogEntryParseError::MissingInterfaceData,
        crate::logging::CANDumpLogEntryParseError::MissingCompoundCanData
            => CANDumpLogEntryParseError::MissingCompoundCanData,
        crate::logging::CANDumpLogEntryParseError::MissingCanIdData
            => CANDumpLogEntryParseError::MissingCanIdData,
        crate::logging::CANDumpLogEntryParseError::MissingCanData
            => CANDumpLogEntryParseError::MissingCanData,
        crate::logging::CANDumpLogEntryParseError::MissingFlagData
            => CANDumpLogEntryParseError::MissingFlagData,
        crate::logging::CANDumpLogEntryParseError::ParseCanIdError
            => CANDumpLogEntryParseError::ParseCanIdError,
        crate::logging::CANDumpLogEntryParseError::ParseCanDataError
            => CANDumpLogEntryParseError::ParseCanDataError,
        crate::logging::CANDumpLogEntryParseError::ParseFlagError
            => CANDumpLogEntryParseError::ParseFlagError,
        crate::logging::CANDumpLogEntryParseError::ConstructionError(_)
            => CANDumpLogEntryParseError::Unspecified,
        crate::logging::CANDumpLogEntryParseError::Unspecified
            => CANDumpLogEntryParseError::Unspecified,
    }
}

/// Extracts the timestamp text of a candump log line; turning that text into
/// a number is the caller's business.
pub fn log_timestamp_text(s: &str) -> (result: Result<String, CANDumpLogEntryParseError>)
    ensures
        log_timestamp_text_spec(s@) matches Ok(t) ==> (result matches Ok(r) && r@ == t),
        log_timestamp_text_spec(s@) matches Err(err) ==> result == Err::<String,
        CANDumpLogEntryParseError>(err),
{
    match crate::logging::log_timestamp_text(s) {
        Ok(t) => Ok(t),
        Err(e) => Err(name_log_err(e)),
    }
}

/// Parses everything of a candump log line but the timestamp.
pub fn parse_log_rest(s: &str) -> (result: Result<CANDumpLogParts, CANDumpLogEntryParseError>)
    ensures
        parse_log_rest_spec(s@) matches Ok(t) ==> (result matches Ok(p) && p.interface@ == t.0
            && p.can_id == t.1 && p.data@ == t.2 && p.flag == t.3),
        parse_log_rest_spec(s@) matches Err(err) ==> result == Err::<CANDumpLogParts,
        CANDumpLogEntryParseError>(err),
{
    match crate::logging::parse_log_rest(s) {
        Ok(p) => Ok(p),
        Err(e) => Err(name_log_err(e)),
    }
}

} // verus!
