use cantools::logging::{CANDumpEntry, CANDumpEntryParseError};

#[test]
fn logging_candump_raw_can_dump_raw_parse_1() {
    let entry: CANDumpEntry = "can0 00001337 [1] 01".parse().unwrap();
    assert_eq!(entry, CANDumpEntry::new("can0", 0x1337, vec![0x01]).unwrap());
}

#[test]
fn logging_candump_raw_can_dump_raw_parse_2() {
    let entry = "can0 00001337 [2] 01".parse::<CANDumpEntry>();
    assert_eq!(entry, Err(CANDumpEntryParseError::DlcDataMismatch));
}

#[test]
fn can_dump_raw_parse_3() {
    let entry = CANDumpEntry::new("can0", 0x1337, vec![0x01]).unwrap();
    let entry_string = entry.to_string();
    let entry2 = entry_string.parse();
    assert_eq!(entry, entry2.unwrap());
}
