use cantools::decode::TryDecode;
use cantools::encode::{Encode, EncodeError, TryEncode};
use cantools::mask::Mask;
use cantools::signals::Bit;

#[test]
fn test_decode_bit_001() {
    let bit = Bit::new(1);
    let data = [0b1111_0010u8];

    let decode = bit.try_decode(&data);
    assert_eq!(decode, Result::Ok(true));
}

#[test]
fn test_decode_bit_002() {
    let bit = Bit::new(0);
    let data = [0b1111_0010u8];

    let decode = bit.try_decode(&data);
    assert_eq!(decode, Result::Ok(false));
}

#[test]
fn test_decode_bit_003() {
    for i in 0..8 {
        let bit = Bit::new(i);
        let data = [u8::mask(1, i)];
        let decode = bit.try_decode(&data);
        assert_eq!(decode, Result::Ok(true));
    }
}

#[test]
fn test_encode_bit_001() {
    for i in 0..8 {
        let bit = Bit::new(i);
        let data = [u8::mask(1, i)];
        let mut data_to_encode = [0u8];
        let result = bit.try_encode(&mut data_to_encode, true);

        assert_eq!(result, Ok(()));
        assert_eq!(data, data_to_encode);
    }
}

#[test]
fn test_encode_bit_002() {
    for i in 0..8 {
        let bit = Bit::new(i);
        let data = [u8::mask(1, i)];
        let mut data_to_encode = [0u8];
        Encode::encode(&bit, &mut data_to_encode, true);

        assert_eq!(data, data_to_encode);
    }
}

#[test]
fn test_encode_bit_003() {
    for i in 0..8 {
        let bit = Bit::new(i);
        let data = [!u8::mask(1, i)];
        let mut data_to_encode = [0xFFu8];
        let result = bit.try_encode(&mut data_to_encode, false);

        assert_eq!(result, Ok(()));
        assert_eq!(data, data_to_encode);
    }
}

#[test]
fn test_encode_bit_004() {
    for i in 0..8 {
        let bit = Bit::new(i);
        let data = [!u8::mask(1, i)];
        let mut data_to_encode = [0xFFu8];
        let result = bit.try_encode(&mut data_to_encode, false);

        assert_eq!(result, Ok(()));
        assert_eq!(data, data_to_encode);
    }
}

#[test]
fn test_encode_bit_005() {
    for i in 8..64 {
        let bit = Bit::new(i);
        let mut data_to_encode = [0xFFu8];
        let result = bit.try_encode(&mut data_to_encode, false);

        assert!(result.is_err());
        assert_eq!(result, Err(EncodeError::NotEnoughData))
    }
}

#[test]
#[should_panic]
fn test_encode_bit_006() {
    for i in 8..64 {
        let bit = Bit::new(i);
        let mut data_to_encode = [0xFFu8];
        bit.encode(&mut data_to_encode, false);
    }
}
