//! The candump logfile text formats: entries of the raw format (interface,
//! frame id, bracketed length, spaced payload bytes) and the line parts of
//! the timestamped log format (timestamp, interface, `id#data` compound).
//!
//! Reading and writing files stays outside this crate; these types and
//! functions turn single lines into values and back.

use vstd::prelude::*;

verus! {

use crate::data::CANRead;
use crate::text::{
    append_bytes_hex, append_decimal, append_hex_fixed, bytes_hex_packed, bytes_hex_spaced,
    bytes_of_pieces, dec_digits, hex_fixed, hex_pairs, num_text_ok, num_text_val, parse_byte_pieces,
    parse_hex_groups, parse_uint, piece_views, split_on, split_str, lemma_split_on_nonempty,
};

/// Errors rejecting field values at entry construction.
#[derive(Debug, PartialEq, Eq, Structural, Clone, Copy)]
pub enum CANDumpEntryConstructionError {
    /// The interface name is empty.
    EmptyInterface,
}

/// Errors a candump raw line can earn while being parsed.
#[derive(Debug, PartialEq, Eq, Structural, Clone, Copy)]
pub enum CANDumpEntryParseError {
    /// The line has no interface piece.
    MissingInterfaceData,
    /// The line has no frame id piece, or the piece is not a hexadecimal
    /// number.
    MissingCanIdData,
    /// The line has no length piece.
    MissingDlcData,
    /// The length piece does not hold a decimal number.
    ParseDlcError,
    /// The frame id piece is not a hexadecimal number.
    ParseCanIdError,
    /// A payload piece is not a hexadecimal byte.
    ParseCanDataError,
    /// The declared length does not match the number of payload bytes.
    DlcDataMismatch,
    /// The parsed fields were rejected at construction.
    ConstructionError(CANDumpEntryConstructionError),
}

/// One entry of the candump raw format.
#[derive(Debug, PartialEq)]
pub struct CANDumpEntry {
    interface: String,
    can_id: u32,
    data: Vec<u8>,
}

impl CANRead for CANDumpEntry {
    open spec fn bytes(&self) -> Seq<u8> {
        self.data_spec()
    }

    fn data(&self) -> (r: &[u8]) {
        self.data.as_slice()
    }

    fn dlc(&self) -> (r: usize) {
        self.data.len()
    }
}

/// The candump raw text of an entry: interface, eight hexadecimal digits of
/// the frame id, the payload length in brackets, and the payload bytes as
/// spaced two-digit groups.
pub open spec fn entry_line_spec(interface: Seq<char>, can_id: u32, data: Seq<u8>) -> Seq<char> {
    interface + seq![' '] + hex_fixed(can_id as nat, 8) + seq![' ', '['] + dec_digits(data.len())
        + seq![']', ' '] + bytes_hex_spaced(data)
}

/// What parsing a candump raw line yields: interface text, frame id, and
/// payload, or the error the line earns. The pieces are the space-separated
/// parts of the line; payload pieces start at the fourth piece.
pub open spec fn parse_entry_spec(s: Seq<char>) -> Result<
    (Seq<char>, u32, Seq<u8>),
    CANDumpEntryParseError,
> {
    let pieces = split_on(s, ' ');
    if pieces.len() < 2 || !num_text_ok(pieces[1], 16, 0xFF_FF_FF_FF) {
        Err(CANDumpEntryParseError::MissingCanIdData)
    } else if pieces.len() < 3 {
        Err(CANDumpEntryParseError::MissingDlcData)
    } else if pieces[2].len() < 2 || !num_text_ok(
        pieces[2].subrange(1, pieces[2].len() - 1),
        10,
        0xFF_FF_FF_FF_FF_FF_FF_FF,
    ) {
        Err(CANDumpEntryParseError::ParseDlcError)
    } else if bytes_of_pieces(pieces, 3) is None {
        Err(CANDumpEntryParseError::ParseCanDataError)
    } else if num_text_val(pieces[2].subrange(1, pieces[2].len() - 1), 10) != bytes_of_pieces(
        pieces,
        3,
    ).unwrap().len() {
        Err(CANDumpEntryParseError::DlcDataMismatch)
    } else if pieces[0].len() == 0 {
        Err(
            CANDumpEntryParseError::ConstructionError(
                CANDumpEntryConstructionError::EmptyInterface,
            ),
        )
    } else {
        Ok((pieces[0], num_text_val(pieces[1], 16) as u32, bytes_of_pieces(pieces, 3).unwrap()))
    }
}

impl CANDumpEntry {
    /// The interface name.
    pub closed spec fn interface_spec(&self) -> Seq<char> {
        self.interface@
    }

    /// The frame id.
    pub closed spec fn can_id_spec(&self) -> u32 {
        self.can_id
    }

    /// The payload bytes.
    pub closed spec fn data_spec(&self) -> Seq<u8> {
        self.data@
    }

    /// Constructs an entry, rejecting an empty interface name.
    pub fn new(interface: &str, can_id: u32, data: Vec<u8>) -> (result: Result<
        Self,
        CANDumpEntryConstructionError,
    >)
        ensures
            interface@.len() == 0 ==> result == Err::<Self, CANDumpEntryConstructionError>(
                CANDumpEntryConstructionError::EmptyInterface,
            ),
            interface@.len() > 0 ==> (result matches Ok(e) && e.interface_spec() == interface@
                && e.can_id_spec() == can_id && e.data_spec() == data@),
    {
        if interface.is_empty() {
            Err(CANDumpEntryConstructionError::EmptyInterface)
        } else {
            Ok(CANDumpEntry { interface: interface.to_owned(), can_id, data })
        }
    }

    /// Parses one candump raw line.
    pub fn parse(s: &str) -> (result: Result<Self, CANDumpEntryParseError>)
        ensures
            parse_entry_spec(s@) matches Ok(t) ==> (result matches Ok(e) && e.interface_spec()
                == t.0 && e.can_id_spec() == t.1 && e.data_spec() == t.2),
            parse_entry_spec(s@) matches Err(err) ==> result == Err::<Self,
            CANDumpEntryParseError>(err),
    {
        let ghost spec_pieces = split_on(s@, ' ');
        let pieces = split_str(s, ' ');
        proof {
            assert(piece_views(pieces@) =~= spec_pieces);
        }
        if pieces.len() < 2 {
            return Err(CANDumpEntryParseError::MissingCanIdData);
        }
        let can_id = match parse_uint(pieces[1].as_str(), 16, 0xFF_FF_FF_FF) {
            Some(v) => v as u32,
            None => {
                return Err(CANDumpEntryParseError::MissingCanIdData);
            },
        };
        if pieces.len() < 3 {
            return Err(CANDumpEntryParseError::MissingDlcData);
        }
        let dlc_len = pieces[2].as_str().unicode_len();
        if dlc_len < 2 {
            return Err(CANDumpEntryParseError::ParseDlcError);
        }
        let dlc_digits = pieces[2].as_str().substring_char(1, dlc_len - 1);
        let dlc = match parse_uint(dlc_digits, 10, 0xFF_FF_FF_FF_FF_FF_FF_FF) {
            Some(v) => v,
            None => {
                return Err(CANDumpEntryParseError::ParseDlcError);
            },
        };
        let data = match parse_byte_pieces(&pieces, 3) {
            Some(d) => d,
            None => {
                return Err(CANDumpEntryParseError::ParseCanDataError);
            },
        };
        if dlc != data.len() as u64 {
            return Err(CANDumpEntryParseError::DlcDataMismatch);
        }
        match CANDumpEntry::new(pieces[0].as_str(), can_id, data) {
            Ok(entry) => Ok(entry),
            Err(err) => Err(CANDumpEntryParseError::ConstructionError(err)),
        }
    }

    /// Renders the entry as one candump raw line.
    pub fn to_string(&self) -> (r: String)
        ensures
            r@ == entry_line_spec(self.interface_spec(), self.can_id_spec(), self.data_spec()),
    {
        let mut out = String::new();
        out.append(self.interface.as_str());
        proof {
            reveal_strlit(" ");
            reveal_strlit(" [");
            reveal_strlit("] ");
        }
        out.append(" ");
        append_hex_fixed(&mut out, self.can_id as u64, 8);
        out.append(" [");
        append_decimal(&mut out, self.data.len() as u64);
        out.append("] ");
        append_bytes_hex(&mut out, self.data.as_slice(), true);
        proof {
            assert(out@ =~= entry_line_spec(
                self.interface_spec(),
                self.can_id_spec(),
                self.data_spec(),
            ));
        }
        out
    }
}

impl core::str::FromStr for CANDumpEntry {
    type Err = CANDumpEntryParseError;

    fn from_str(s: &str) -> Result<Self, Self::Err> {
        CANDumpEntry::parse(s)
    }
}

/// Errors rejecting field values at log entry construction.
#[derive(Debug, PartialEq, Eq, Structural, Clone, Copy)]
pub enum CANDumpLogEntryConstructionError {
    /// The timestamp is not a finite number.
    InvalidTimestamp,
    /// The interface name is empty.
    EmptyInterface,
    /// The flag does not fit a single hexadecimal digit.
    InvalidFlagValue,
}

/// Errors a candump log line can earn while being parsed.
#[derive(Debug, PartialEq, Eq, Structural, Clone, Copy)]
pub enum CANDumpLogEntryParseError {
    /// The line has no timestamp piece.
    MissingTimestampData,
    /// The timestamp piece does not hold a number.
    ParseTimestampError,
    /// The line has no interface piece.
    MissingInterfaceData,
    /// The line has no `id#data` compound piece.
    MissingCompoundCanData,
    /// The compound piece has no frame id part.
    MissingCanIdData,
    /// The compound piece has no payload part.
    MissingCanData,
    /// The flagged payload part holds no flag digit.
    MissingFlagData,
    /// The frame id part is not a hexadecimal number.
    ParseCanIdError,
    /// A payload group is not a hexadecimal byte.
    ParseCanDataError,
    /// The flag is not a hexadecimal digit.
    ParseFlagError,
    /// The parsed fields were rejected at construction.
    ConstructionError(CANDumpLogEntryConstructionError),
    /// The compound piece has an unexpected shape.
    Unspecified,
}

/// The non-timestamp fields parsed out of a candump log line.
pub struct CANDumpLogParts {
    /// The interface name text.
    pub interface: String,
    /// The frame id.
    pub can_id: u32,
    /// The payload bytes.
    pub data: Vec<u8>,
    /// The flag digit, present in the double-`#` form of the line.
    pub flag: Option<u8>,
}

/// The timestamp text of a candump log line: the first space-separated piece
/// with its first and last characters (the parentheses) removed.
pub open spec fn log_timestamp_text_spec(s: Seq<char>) -> Result<
    Seq<char>,
    CANDumpLogEntryParseError,
> {
    let piece = split_on(s, ' ')[0];
    if piece.len() < 2 {
        Err(CANDumpLogEntryParseError::ParseTimestampError)
    } else {
        Ok(piece.subrange(1, piece.len() - 1))
    }
}

/// What parsing the rest of a candump log line yields: interface text, frame
/// id, payload, and optional flag, or the error the line earns. The second
/// space-separated piece is the interface; the third is the `id#data` or
/// `id##flagdata` compound.
pub open spec fn parse_log_rest_spec(s: Seq<char>) -> Result<
    (Seq<char>, u32, Seq<u8>, Option<u8>),
    CANDumpLogEntryParseError,
> {
    let pieces = split_on(s, ' ');
    if pieces.len() < 2 {
        Err(CANDumpLogEntryParseError::MissingInterfaceData)
    } else if pieces.len() < 3 {
        Err(CANDumpLogEntryParseError::MissingCompoundCanData)
    } else {
        let parts = split_on(pieces[2], '#');
        if parts.len() == 2 {
            if !num_text_ok(parts[0], 16, 0xFF_FF_FF_FF) {
                Err(CANDumpLogEntryParseError::ParseCanIdError)
            } else if hex_pairs(parts[1]) is None {
                Err(CANDumpLogEntryParseError::ParseCanDataError)
            } else {
                Ok(
                    (
                        pieces[1],
                        num_text_val(parts[0], 16) as u32,
                        hex_pairs(parts[1]).unwrap(),
                        None,
                    ),
                )
            }
        } else if parts.len() >= 3 {
            if !num_text_ok(parts[0], 16, 0xFF_FF_FF_FF) {
                Err(CANDumpLogEntryParseError::ParseCanIdError)
            } else if parts[2].len() < 1 {
                Err(CANDumpLogEntryParseError::MissingFlagData)
            } else if !num_text_ok(parts[2].take(1), 16, 0xFF) {
                Err(CANDumpLogEntryParseError::ParseFlagError)
            } else if hex_pairs(parts[2].skip(1)) is None {
                Err(CANDumpLogEntryParseError::ParseCanDataError)
            } else {
                Ok(
                    (
                        pieces[1],
                        num_text_val(parts[0], 16) as u32,
                        hex_pairs(parts[2].skip(1)).unwrap(),
                        Some(num_text_val(parts[2].take(1), 16) as u8),
                    ),
                )
            }
        } else {
            Err(CANDumpLogEntryParseError::Unspecified)
        }
    }
}

/// Extracts the timestamp text of a candump log line; turning that text into
/// a number is the caller's business.
pub fn log_timestamp_text(s: &str) -> (result: Result<String, CANDumpLogEntryParseError>)
    ensures
        log_timestamp_text_spec(s@) matches Ok(t) ==> (result matches Ok(r) && r@ == t),
        log_timestamp_text_spec(s@) matches Err(err) ==> result == Err::<String,
        CANDumpLogEntryParseError>(err),
{
    let ghost spec_pieces = split_on(s@, ' ');
    let pieces = split_str(s, ' ');
    proof {
        assert(piece_views(pieces@) =~= spec_pieces);
        lemma_split_on_nonempty(s@, ' ');
    }
    let piece = pieces[0].as_str();
    let n = piece.unicode_len();
    if n < 2 {
        Err(CANDumpLogEntryParseError::ParseTimestampError)
    } else {
        Ok(piece.substring_char(1, n - 1).to_owned())
    }
}

/// Parses everything of a candump log line but the timestamp.
pub fn parse_log_rest(s: &str) -> (result: Result<CANDumpLogParts, CANDumpLogEntryParseError>)
    ensures
        parse_log_rest_spec(s@) matches Ok(t) ==> (result matches Ok(p) && p.interface@ == t.0
            && p.can_id == t.1 && p.data@ == t.2 && p.flag == t.3),
        parse_log_rest_spec(s@) matches Err(err) ==> result == Err::<CANDumpLogParts,
        CANDumpLogEntryParseError>(err),
{
    let ghost spec_pieces = split_on(s@, ' ');
    let pieces = split_str(s, ' ');
    proof {
        assert(piece_views(pieces@) =~= spec_pieces);
    }
    if pieces.len() < 2 {
        return Err(CANDumpLogEntryParseError::MissingInterfaceData);
    }
    if pieces.len() < 3 {
        return Err(CANDumpLogEntryParseError::MissingCompoundCanData);
    }
    let compound = pieces[2].as_str();
    let ghost spec_parts = split_on(compound@, '#');
    let parts = split_str(compound, '#');
    proof {
        assert(piece_views(parts@) =~= spec_parts);
    }
    if parts.len() == 2 {
        let can_id = match parse_uint(parts[0].as_str(), 16, 0xFF_FF_FF_FF) {
            Some(v) => v as u32,
            None => {
                return Err(CANDumpLogEntryParseError::ParseCanIdError);
            },
        };
        proof {
            assert(parts@[1]@.skip(0) =~= spec_parts[1]);
        }
        let data = match parse_hex_groups(parts[1].as_str(), 0) {
            Some(d) => d,
            None => {
                return Err(CANDumpLogEntryParseError::ParseCanDataError);
            },
        };
        Ok(
            CANDumpLogParts {
                interface: pieces[1].clone(),
                can_id,
                data,
                flag: None,
            },
        )
    } else if parts.len() >= 3 {
        let can_id = match parse_uint(parts[0].as_str(), 16, 0xFF_FF_FF_FF) {
            Some(v) => v as u32,
            None => {
                return Err(CANDumpLogEntryParseError::ParseCanIdError);
            },
        };
        let payload = parts[2].as_str();
        let n = payload.unicode_len();
        if n < 1 {
            return Err(CANDumpLogEntryParseError::MissingFlagData);
        }
        let flag_text = payload.substring_char(0, 1);
        proof {
            assert(flag_text@ =~= spec_parts[2].take(1));
        }
        let flag = match parse_uint(flag_text, 16, 0xFF) {
            Some(v) => v as u8,
            None => {
                return Err(CANDumpLogEntryParseError::ParseFlagError);
            },
        };
        let data = match parse_hex_groups(payload, 1) {
            Some(d) => d,
            None => {
                return Err(CANDumpLogEntryParseError::ParseCanDataError);
            },
        };
        Ok(
            CANDumpLogParts {
                interface: pieces[1].clone(),
                can_id,
                data,
                flag: Some(flag),
            },
        )
    } else {
        Err(CANDumpLogEntryParseError::Unspecified)
    }
}

/// The construction checks of a log entry that do not involve the timestamp:
/// a non-empty interface and a flag of at most one hexadecimal digit.
pub fn check_log_entry_fields(interface: &str, flag: Option<u8>) -> (result: Result<
    (),
    CANDumpLogEntryConstructionError,
>)
    ensures
        interface@.len() == 0 ==> result == Err::<(), CANDumpLogEntryConstructionError>(
            CANDumpLogEntryConstructionError::EmptyInterface,
        ),
        interface@.len() > 0 && (flag matches Some(f) && f > 0x0F) ==> result == Err::<
            (),
            CANDumpLogEntryConstructionError,
        >(CANDumpLogEntryConstructionError::InvalidFlagValue),
        interface@.len() > 0 && (flag matches Some(f) ==> f <= 0x0F) ==> result == Ok::<
            (),
            CANDumpLogEntryConstructionError,
        >(()),
{
    if interface.is_empty() {
        return Err(CANDumpLogEntryConstructionError::EmptyInterface);
    }
    match flag {
        Some(f) => {
            if f > 0x0F {
                Err(CANDumpLogEntryConstructionError::InvalidFlagValue)
            } else {
                Ok(())
            }
        },
        None => Ok(()),
    }
}

/// The flag digit as text: one digit where it fits, two otherwise.
pub open spec fn flag_hex(f: u8) -> Seq<char> {
    if f < 16 {
        hex_fixed(f as nat, 1)
    } else {
        hex_fixed(f as nat, 2)
    }
}

/// The text of a candump log line after the closing parenthesis of the
/// timestamp: interface, eight hexadecimal digits of the frame id, the `#`
/// separator (doubled and followed by the flag digit in the flagged form),
/// and the payload bytes as packed two-digit groups.
pub open spec fn log_tail_spec(
    interface: Seq<char>,
    can_id: u32,
    data: Seq<u8>,
    flag: Option<u8>,
) -> Seq<char> {
    let head = seq![' '] + interface + seq![' '] + hex_fixed(can_id as nat, 8);
    match flag {
        None => head + seq!['#'] + bytes_hex_packed(data),
        Some(f) => head + seq!['#', '#'] + flag_hex(f) + bytes_hex_packed(data),
    }
}

/// Renders everything of a candump log line after the timestamp text.
pub fn log_line_tail(interface: &str, can_id: u32, data: &[u8], flag: Option<u8>) -> (r: String)
    ensures
        r@ == log_tail_spec(interface@, can_id, data@, flag),
{
    proof {
        reveal_strlit(" ");
        reveal_strlit("#");
        reveal_strlit("##");
    }
    let mut out = String::new();
    out.append(" ");
    out.append(interface);
    out.append(" ");
    append_hex_fixed(&mut out, can_id as u64, 8);
    match flag {
        None => {
            out.append("#");
        },
        Some(f) => {
            out.append("##");
            if f < 16 {
                append_hex_fixed(&mut out, f as u64, 1);
            } else {
                append_hex_fixed(&mut out, f as u64, 2);
            }
        },
    }
    append_bytes_hex(&mut out, data, false);
    proof {
        assert(out@ =~= log_tail_spec(interface@, can_id, data@, flag));
    }
    out
}

} // verus!
