use cantools::data::{CANRead, CANWrite};
use cantools::decode::{Decode, DecodeError, DefaultDecode, TryDecode};
use cantools::encode::{EncodeError, TryEncode};
use cantools::endian::Endian;
use cantools::signals::{LengthError, Max, Min, Raw};

#[test]
fn raw_new_length_64() {
    let sig = Raw::new(1, 64, Endian::Little);
    assert!(sig.is_ok());
}

#[test]
fn raw_new_length_65() {
    let sig = Raw::new(1, 65, Endian::Little);
    assert_eq!(sig, Err(LengthError::LengthGreater64));
}

#[test]
fn raw_new_length_0() {
    let sig = Raw::new(1, 0, Endian::Big);
    assert_eq!(sig, Err(LengthError::LengthZero));
}

#[test]
fn raw_decode_little_byte() {
    let sig = Raw::new(0, 8, Endian::Little).unwrap();
    let data = [255u8, 0, 0, 0, 0, 0, 0, 0];
    let decode: Result<u64, DecodeError> = sig.try_decode(&data);
    assert_eq!(decode, Ok(255));
}

#[test]
fn raw_decode_big_byte() {
    let sig = Raw::new(7, 8, Endian::Big).unwrap();
    let data = [255u8, 0, 0, 0, 0, 0, 0, 0];
    let decode: Result<u64, DecodeError> = sig.try_decode(&data);
    assert_eq!(decode, Ok(255));
}

#[test]
fn raw_decode_little_span() {
    let sig = Raw::new(4, 8, Endian::Little).unwrap();
    let data = [0b1111_0000u8, 0b0000_1111, 0, 0, 0, 0, 0, 0];
    let decode: Result<u64, DecodeError> = sig.try_decode(&data);
    assert_eq!(decode, Ok(255));
}

#[test]
fn raw_decode_big_span() {
    let sig = Raw::new(3, 8, Endian::Big).unwrap();
    let data = [0b0000_1111u8, 0b0000_1111, 0, 0, 0, 0, 0, 0];
    let decode: Result<u64, DecodeError> = sig.try_decode(&data);
    assert_eq!(decode, Ok(0b1111_0000));
}

#[test]
fn raw_decode_little_not_enough() {
    let sig = Raw::new(0, 9, Endian::Little).unwrap();
    let data = [0b0000_1111u8];
    let decode: Result<u64, DecodeError> = sig.try_decode(&data);
    assert_eq!(decode, Err(DecodeError::NotEnoughData));
}

#[test]
fn raw_decode_big_not_enough() {
    let sig = Raw::new(6, 8, Endian::Big).unwrap();
    let data = [0b0000_1111u8];
    let decode: Result<u64, DecodeError> = sig.try_decode(&data);
    assert_eq!(decode, Err(DecodeError::NotEnoughData));
}

#[test]
fn raw_decode_and_default_decode_agree() {
    let sig = Raw::new(8, 16, Endian::Little).unwrap();
    let data = [0u8, 0x34, 0x12, 0, 0, 0, 0, 0];
    let value: u64 = sig.decode(&data);
    let fallback: u64 = sig.default_decode(&data);
    assert_eq!(value, 0x1234);
    assert_eq!(fallback, 0x1234);
}

#[test]
fn raw_default_decode_short_buffer() {
    let sig = Raw::new(8, 16, Endian::Little).unwrap();
    let data = [0xFFu8];
    let fallback: u64 = sig.default_decode(&data);
    assert_eq!(fallback, 0);
}

#[test]
fn raw_encode_little_bytes() {
    let sig = Raw::new(0, 8, Endian::Little).unwrap();
    for i in 0..=255u8 {
        let mut data = [0u8];
        let result = sig.try_encode(&mut data, i as u64);
        assert!(result.is_ok());
        assert_eq!(data, [i]);
    }
}

#[test]
fn raw_encode_big_nibbles() {
    let sig = Raw::new(3, 8, Endian::Big).unwrap();
    let mut data = [0u8, 0u8];
    let result = sig.try_encode(&mut data, 255u64);
    assert!(result.is_ok());
    assert_eq!(data, [0x0Fu8, 0xF0u8]);
}

#[test]
fn raw_encode_big_shifted() {
    let sig = Raw::new(2, 8, Endian::Big).unwrap();
    let mut data = [0u8, 0u8];
    let result = sig.try_encode(&mut data, 255u64);
    assert!(result.is_ok());
    assert_eq!(data, [0b0000_0111u8, 0b1111_1000u8]);
}

#[test]
fn raw_encode_big_preserves_other_bits() {
    let sig = Raw::new(3, 8, Endian::Big).unwrap();
    let mut data = [0xA0u8, 0x0Bu8];
    let result = sig.try_encode(&mut data, 255u64);
    assert!(result.is_ok());
    assert_eq!(data, [0xAFu8, 0xFBu8]);
}

#[test]
fn raw_encode_max_error() {
    let sig = Raw::new(0, 8, Endian::Little).unwrap();
    let mut data = [0u8];
    let result = sig.try_encode(&mut data, 256u64);
    assert_eq!(result, Err(EncodeError::MaxError));
    assert_eq!(data, [0u8]);
}

#[test]
fn raw_encode_not_enough_data() {
    let sig = Raw::new(0, 16, Endian::Little).unwrap();
    let mut data = [0u8];
    let result = sig.try_encode(&mut data, 1u64);
    assert_eq!(result, Err(EncodeError::NotEnoughData));
}

#[test]
fn raw_min_max() {
    let sig = Raw::new(6, 8, Endian::Little).unwrap();
    assert_eq!(sig.min(), 0u64);
    assert_eq!(sig.max(), 255u64);
    let wide = Raw::new(6, 16, Endian::Little).unwrap();
    assert_eq!(wide.max(), 65535u64);
}

#[test]
fn signed_decode_little() {
    let sig = Raw::new(0, 8, Endian::Little).unwrap();
    let high = [0b1000_0000u8];
    let low = [0b0111_1111u8];
    let negative: Result<i64, DecodeError> = sig.try_decode(&high);
    let positive: Result<i64, DecodeError> = sig.try_decode(&low);
    assert_eq!(negative, Ok(-128));
    assert_eq!(positive, Ok(127));
}

#[test]
fn signed_decode_big() {
    let sig = Raw::new(3, 8, Endian::Big).unwrap();
    let low = [0b0000_0111u8, 0b1111_0000];
    let high = [0b0000_1000u8, 0b0000_1111];
    let positive: Result<i64, DecodeError> = sig.try_decode(&low);
    let negative: Result<i64, DecodeError> = sig.try_decode(&high);
    assert_eq!(positive, Ok(127));
    assert_eq!(negative, Ok(-128));
}

#[test]
fn signed_encode_little() {
    let sig = Raw::new(0, 8, Endian::Little).unwrap();
    let mut data = [0u8];
    assert!(sig.try_encode(&mut data, -128i64).is_ok());
    assert_eq!(data, [0b1000_0000u8]);

    let mut data = [0u8];
    assert!(sig.try_encode(&mut data, -1i64).is_ok());
    assert_eq!(data, [0b1111_1111u8]);
}

#[test]
fn signed_encode_bounds() {
    let sig = Raw::new(0, 8, Endian::Little).unwrap();
    let mut data = [0u8];
    assert_eq!(sig.try_encode(&mut data, 128i64), Err(EncodeError::MaxError));
    assert_eq!(sig.try_encode(&mut data, -129i64), Err(EncodeError::MinError));
    let mut empty: [u8; 0] = [];
    assert_eq!(sig.try_encode(&mut empty, -128i64), Err(EncodeError::NotEnoughData));
}

#[test]
fn signed_encode_big() {
    let sig = Raw::new(3, 8, Endian::Big).unwrap();
    let mut data = [0u8, 0u8];
    assert!(sig.try_encode(&mut data, 127i64).is_ok());
    assert_eq!(data, [0b0000_0111u8, 0b1111_0000u8]);

    let mut data = [0u8, 0u8];
    assert!(sig.try_encode(&mut data, -128i64).is_ok());
    assert_eq!(data, [0b0000_1000u8, 0b0000_0000u8]);

    let mut data = [0b1000_0000u8, 0b0000_0001u8];
    assert!(sig.try_encode(&mut data, -1i64).is_ok());
    assert_eq!(data, [0b1000_1111u8, 0b1111_0001u8]);
}

#[test]
fn round_trip_little_exhaustive() {
    for start in 0..16u16 {
        for length in 1..=16u16 {
            let sig = Raw::new(start, length, Endian::Little).unwrap();
            let mut data = [0xA5u8; 8];
            let value = 0x2AAAu64 & (if length == 64 { u64::MAX } else { (1 << length) - 1 });
            assert!(sig.try_encode(&mut data, value).is_ok());
            let decode: Result<u64, DecodeError> = sig.try_decode(&data);
            assert_eq!(decode, Ok(value));
        }
    }
}

#[test]
fn round_trip_big_exhaustive() {
    for start in 0..16u16 {
        for length in 1..=16u16 {
            let sig = Raw::new(start, length, Endian::Big).unwrap();
            let mut data = [0x5Au8; 8];
            let value = 0x1555u64 & (if length == 64 { u64::MAX } else { (1 << length) - 1 });
            assert!(sig.try_encode(&mut data, value).is_ok());
            let decode: Result<u64, DecodeError> = sig.try_decode(&data);
            assert_eq!(decode, Ok(value));
        }
    }
}

#[test]
fn round_trip_signed_both_endians() {
    for endian in [Endian::Little, Endian::Big] {
        for value in [-128i64, -77, -1, 0, 1, 99, 127] {
            let sig = Raw::new(5, 8, endian).unwrap();
            let mut data = [0u8; 8];
            assert!(sig.try_encode(&mut data, value).is_ok());
            let decode: Result<i64, DecodeError> = sig.try_decode(&data);
            assert_eq!(decode, Ok(value));
        }
    }
}

#[test]
fn endian_mirror_scenario() {
    // A big-endian read equals the little-endian read of the byte-reversed
    // buffer at the mirrored position.
    let data = [0x12u8, 0x34, 0x56, 0x78, 0x9A, 0xBC, 0xDE, 0xF0];
    let mut reversed = data;
    reversed.reverse();

    // start = 7 has canonical position 0; its mirror in a 64-bit buffer for
    // a 16-bit signal starts at bit 64 - 0 - 16 = 48.
    let big = Raw::new(7, 16, Endian::Big).unwrap();
    let little = Raw::new(48, 16, Endian::Little).unwrap();
    let b: Result<u64, DecodeError> = big.try_decode(&data);
    let l: Result<u64, DecodeError> = little.try_decode(&reversed);
    assert_eq!(b, l);
    assert_eq!(b, Ok(0x1234));
}

#[test]
fn buffer_representations() {
    let sig = Raw::new(0, 8, Endian::Little).unwrap();

    let mut vec_buf: Vec<u8> = vec![0, 0];
    assert!(sig.try_encode(&mut vec_buf, 0xABu64).is_ok());
    assert_eq!(vec_buf, vec![0xAB, 0]);

    let mut array_buf = [0u8, 0u8];
    assert!(sig.try_encode(&mut array_buf, 0xCDu64).is_ok());
    assert_eq!(array_buf, [0xCD, 0]);

    let mut backing = [0u8, 0u8];
    let mut slice_buf: &mut [u8] = &mut backing;
    assert!(sig.try_encode(&mut slice_buf, 0xEFu64).is_ok());
    assert_eq!(backing, [0xEF, 0]);

    let shared: &[u8] = &backing;
    let decode: Result<u64, DecodeError> = sig.try_decode(&shared);
    assert_eq!(decode, Ok(0xEF));
    assert_eq!(CANRead::dlc(&shared), 2);

    let mut arr = [0u8; 4];
    let writable = CANWrite::mut_data(&mut arr);
    writable[0] = 7;
    assert_eq!(CANRead::data(&arr), &[7, 0, 0, 0]);
}

#[test]
fn endian_default_is_little() {
    assert_eq!(Endian::default(), Endian::Little);
}

#[test]
fn bit_start_round_trip() {
    let bit = cantools::signals::Bit::new(42);
    assert_eq!(bit.start(), 42);
}

#[test]
fn raw_default_is_one_little_bit() {
    let sig = Raw::default();
    let data = [0b0000_0001u8];
    let decode: Result<u64, DecodeError> = sig.try_decode(&data);
    assert_eq!(decode, Ok(1));
}
