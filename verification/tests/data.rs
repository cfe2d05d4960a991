use cantools::data::CANRead;

#[test]
fn test_001() {
    for i in 0..8 {
        let mut v = Vec::new();
        for j in 0..i {
            v.push(j);
        }
        assert_eq!(CANRead::dlc(&v), i as usize);
    }
}

#[test]
fn test_002() {
    for i in 0..8 {
        let mut v = Vec::new();
        for j in 0..i {
            v.push(j);
        }
        assert_eq!(CANRead::data(&v), v.as_slice());
    }
}
