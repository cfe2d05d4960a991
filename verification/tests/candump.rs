use cantools::logs::{CANDumpEntry, CANDumpEntryParseError};

#[test]
fn candump_can_dump_raw_parse_1() {
    let entry = "can0 00001337 [1] 01".parse::<CANDumpEntry>();
    assert_eq!(entry.is_ok(), true);
    assert_eq!(entry.unwrap(), CANDumpEntry::new("can0", 0x1337, vec![0x01]));
}

#[test]
fn candump_can_dump_raw_parse_2() {
    let entry = "can0 00001337 [2] 01".parse::<CANDumpEntry>();
    assert_eq!(entry.is_err(), true);
    assert_eq!(entry, Err(CANDumpEntryParseError::DlcDataMismatch));
}
