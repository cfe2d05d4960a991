use cantools::logging;
use cantools::logs;
use cantools::text;

#[test]
fn logging_entry_to_string_exact() {
    let entry = logging::CANDumpEntry::new("vcan0", 0x42, vec![0x12, 0xAB]).unwrap();
    assert_eq!(entry.to_string(), "vcan0 00000042 [2] 12 AB");
}

#[test]
fn logging_entry_to_string_empty_payload() {
    let entry = logging::CANDumpEntry::new("can0", 0x1337, vec![]).unwrap();
    assert_eq!(entry.to_string(), "can0 00001337 [0] ");
}

#[test]
fn logging_entry_parse_multi_byte() {
    let entry: logging::CANDumpEntry = "vcan0 00000042 [3] 01 02 03".parse().unwrap();
    assert_eq!(
        entry,
        logging::CANDumpEntry::new("vcan0", 0x42, vec![0x01, 0x02, 0x03]).unwrap()
    );
}

#[test]
fn logging_entry_parse_errors() {
    assert_eq!("can0".parse::<logging::CANDumpEntry>(), Err(logging::CANDumpEntryParseError::MissingCanIdData));
    assert_eq!("can0 xyz [0] ".parse::<logging::CANDumpEntry>(), Err(logging::CANDumpEntryParseError::MissingCanIdData));
    assert_eq!("can0 12".parse::<logging::CANDumpEntry>(), Err(logging::CANDumpEntryParseError::MissingDlcData));
    assert_eq!("can0 12 [x]".parse::<logging::CANDumpEntry>(), Err(logging::CANDumpEntryParseError::ParseDlcError));
    assert_eq!("can0 12 ]".parse::<logging::CANDumpEntry>(), Err(logging::CANDumpEntryParseError::ParseDlcError));
    assert_eq!("can0 12 [1] zz".parse::<logging::CANDumpEntry>(), Err(logging::CANDumpEntryParseError::ParseCanDataError));
    assert_eq!("can0 12 [2] 01".parse::<logging::CANDumpEntry>(), Err(logging::CANDumpEntryParseError::DlcDataMismatch));
    assert_eq!(
        " 12 [1] 01".parse::<logging::CANDumpEntry>(),
        Err(logging::CANDumpEntryParseError::ConstructionError(
            logging::CANDumpEntryConstructionError::EmptyInterface
        ))
    );
}

#[test]
fn logging_entry_empty_interface_rejected() {
    assert_eq!(
        logging::CANDumpEntry::new("", 1, vec![]),
        Err(logging::CANDumpEntryConstructionError::EmptyInterface)
    );
}

#[test]
fn logs_entry_accepts_empty_interface() {
    let entry = " 12 [1] 01".parse::<logs::CANDumpEntry>();
    assert_eq!(entry, Ok(logs::CANDumpEntry::new("", 0x12, vec![0x01])));
}

#[test]
fn logs_entry_round_trip() {
    let entry = logs::CANDumpEntry::new("vcan0", 0x42, vec![0xDE, 0xAD]);
    let line = entry.to_string();
    assert_eq!(line, "vcan0 00000042 [2] DE AD");
    assert_eq!(line.parse::<logs::CANDumpEntry>(), Ok(entry));
}

#[test]
fn logging_log_timestamp_text_ok() {
    let text = logging::log_timestamp_text("(1647037105.079609) vcan0 42#12").unwrap();
    assert_eq!(text, "1647037105.079609");
}

#[test]
fn logging_log_timestamp_text_too_short() {
    assert_eq!(
        logging::log_timestamp_text("x vcan0 42#12"),
        Err(logging::CANDumpLogEntryParseError::ParseTimestampError)
    );
}

#[test]
fn logging_parse_log_rest_plain() {
    let parts = logging::parse_log_rest("(1647037105.079609) vcan0 00000042#12").unwrap();
    assert_eq!(parts.interface, "vcan0");
    assert_eq!(parts.can_id, 0x42);
    assert_eq!(parts.data, vec![0x12]);
    assert_eq!(parts.flag, None);
}

#[test]
fn logging_parse_log_rest_flagged() {
    let parts = logging::parse_log_rest("(1647037105.079609) vcan0 00000042##A12").unwrap();
    assert_eq!(parts.interface, "vcan0");
    assert_eq!(parts.can_id, 0x42);
    assert_eq!(parts.data, vec![0x12]);
    assert_eq!(parts.flag, Some(0xA));
}

#[test]
fn logging_parse_log_rest_errors() {
    assert!(matches!(logging::parse_log_rest("(t)"), Err(logging::CANDumpLogEntryParseError::MissingInterfaceData)));
    assert!(matches!(logging::parse_log_rest("(t) vcan0"), Err(logging::CANDumpLogEntryParseError::MissingCompoundCanData)));
    assert!(matches!(logging::parse_log_rest("(t) vcan0 zz#12"), Err(logging::CANDumpLogEntryParseError::ParseCanIdError)));
    assert!(matches!(logging::parse_log_rest("(t) vcan0 42"), Err(logging::CANDumpLogEntryParseError::Unspecified)));
    assert!(matches!(logging::parse_log_rest("(t) vcan0 42##"), Err(logging::CANDumpLogEntryParseError::MissingFlagData)));
    assert!(matches!(logging::parse_log_rest("(t) vcan0 42##z"), Err(logging::CANDumpLogEntryParseError::ParseFlagError)));
    assert!(matches!(logging::parse_log_rest("(t) vcan0 42#zz"), Err(logging::CANDumpLogEntryParseError::ParseCanDataError)));
}

#[test]
fn logging_check_log_entry_fields() {
    assert_eq!(logging::check_log_entry_fields("", None), Err(logging::CANDumpLogEntryConstructionError::EmptyInterface));
    assert_eq!(logging::check_log_entry_fields("vcan0", Some(0x10)), Err(logging::CANDumpLogEntryConstructionError::InvalidFlagValue));
    assert_eq!(logging::check_log_entry_fields("vcan0", Some(0x0F)), Ok(()));
    assert_eq!(logging::check_log_entry_fields("vcan0", None), Ok(()));
}

#[test]
fn logging_log_line_tail_forms() {
    let plain = logging::log_line_tail("vcan0", 0x42, &[0x12], None);
    assert_eq!(plain, " vcan0 00000042#12");
    let flagged = logging::log_line_tail("vcan0", 0x42, &[0x12], Some(0xA));
    assert_eq!(flagged, " vcan0 00000042##A12");
}

#[test]
fn logs_parse_log_rest_maps_errors() {
    assert!(matches!(logs::parse_log_rest("(t) vcan0"), Err(logs::CANDumpLogEntryParseError::MissingCompoundCanData)));
    let parts = logs::parse_log_rest("(1647037105.079609) vcan0 00000042##A12").unwrap();
    assert_eq!(parts.flag, Some(0xA));
    assert_eq!(
        logs::log_timestamp_text("(1647037105.079609) vcan0 42#12").unwrap(),
        "1647037105.079609"
    );
}

#[test]
fn parse_uint_hex_forms() {
    assert_eq!(text::parse_uint("00001337", 16, u64::MAX), Some(0x1337));
    assert_eq!(text::parse_uint("+FF", 16, u64::MAX), Some(255));
    assert_eq!(text::parse_uint("-0", 16, u64::MAX), Some(0));
    assert_eq!(text::parse_uint("-1", 16, u64::MAX), None);
    assert_eq!(text::parse_uint("", 16, u64::MAX), None);
    assert_eq!(text::parse_uint("+", 16, u64::MAX), None);
    assert_eq!(text::parse_uint("1F", 10, u64::MAX), None);
    assert_eq!(text::parse_uint("100", 16, 255), None);
    assert_eq!(text::parse_uint("ff", 16, 255), Some(255));
}

#[test]
fn split_str_keeps_empty_pieces() {
    let pieces = text::split_str("a  b", ' ');
    assert_eq!(pieces, vec!["a".to_string(), "".to_string(), "b".to_string()]);
    assert_eq!(text::split_str("", ' '), vec!["".to_string()]);
    assert_eq!(text::split_str("x#", '#'), vec!["x".to_string(), "".to_string()]);
}
