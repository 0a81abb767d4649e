use s7_tags::codec::conv_buf;
use s7_tags::codec::conv_value;
use s7_tags::types::CodecError;
use s7_tags::types::ETagValue;
use s7_tags::types::ETagtype;
use s7_tags::types::S7Address;
use s7_tags::types::S7Area;

fn addr(t: ETagtype, bit: u8) -> S7Address {
    let size = match t {
        ETagtype::BOOL => 1,
        ETagtype::INT => 2,
        ETagtype::DINT | ETagtype::REAL => 4,
    };
    S7Address { area: S7Area::DB, dbnb: 2, bit, start: 0, size, datatype: t }
}

#[test]
fn decode_int16_big_endian() {
    let v = conv_value(&vec![0x12, 0x34], &ETagtype::INT, 0).unwrap();
    assert!(matches!(v, ETagValue::Int(0x1234)));
}

#[test]
fn decode_int16_negative() {
    let v = conv_value(&vec![0xFF, 0xFE], &ETagtype::INT, 0).unwrap();
    assert!(matches!(v, ETagValue::Int(-2)));
}

#[test]
fn decode_int32_big_endian() {
    let v = conv_value(&vec![0x00, 0x59, 0x26, 0xDB], &ETagtype::DINT, 0).unwrap();
    assert!(matches!(v, ETagValue::Int(5842651)));
}

#[test]
fn decode_int32_negative() {
    let v = conv_value(&vec![0xFF, 0xFF, 0xFF, 0xFF], &ETagtype::DINT, 0).unwrap();
    assert!(matches!(v, ETagValue::Int(-1)));
}

#[test]
fn decode_real32_carries_the_bit_pattern() {
    let bits = 565.25f32.to_bits();
    let b = bits.to_be_bytes();
    let v = conv_value(&vec![b[0], b[1], b[2], b[3]], &ETagtype::REAL, 0).unwrap();
    match v {
        ETagValue::Real(got) => {
            assert_eq!(got, bits);
            assert_eq!(f32::from_bits(got), 565.25f32);
        }
        _ => panic!("expected a real value"),
    }
}

#[test]
fn decode_bool_bit_offset_zero_is_the_most_significant_bit() {
    let v = conv_value(&vec![0b1000_0000], &ETagtype::BOOL, 0).unwrap();
    assert!(matches!(v, ETagValue::Bool(true)));
    let v = conv_value(&vec![0b0111_1111], &ETagtype::BOOL, 0).unwrap();
    assert!(matches!(v, ETagValue::Bool(false)));
}

#[test]
fn decode_bool_bit_offset_seven_is_the_least_significant_bit() {
    let v = conv_value(&vec![0b0000_0001], &ETagtype::BOOL, 7).unwrap();
    assert!(matches!(v, ETagValue::Bool(true)));
}

#[test]
fn decode_bool_bit_offset_beyond_seven_is_rejected() {
    let r = conv_value(&vec![0xFF], &ETagtype::BOOL, 8);
    assert!(matches!(r, Err(CodecError::BitIndexOutOfRange)));
}

#[test]
fn encode_int16_big_endian() {
    let b = conv_buf(ETagValue::Int(0x1234), &addr(ETagtype::INT, 0), None).unwrap();
    assert_eq!(b, vec![0x12, 0x34]);
}

#[test]
fn encode_decode_int16_round_trip() {
    for v in [0i64, 1, -1, 8712, -8712, 32767, -32768] {
        let a = addr(ETagtype::INT, 0);
        let b = conv_buf(ETagValue::Int(v), &a, None).unwrap();
        let back = conv_value(&b, &ETagtype::INT, 0).unwrap();
        assert!(matches!(back, ETagValue::Int(x) if x == v), "value {v}");
    }
}

#[test]
fn encode_decode_int32_round_trip() {
    for v in [0i64, 5842651, -5842651, 2147483647, -2147483648] {
        let a = addr(ETagtype::DINT, 0);
        let b = conv_buf(ETagValue::Int(v), &a, None).unwrap();
        let back = conv_value(&b, &ETagtype::DINT, 0).unwrap();
        assert!(matches!(back, ETagValue::Int(x) if x == v), "value {v}");
    }
}

#[test]
fn encode_decode_real32_round_trip() {
    for f in [0.0f32, 565.25, -0.002, 3.5] {
        let a = addr(ETagtype::REAL, 0);
        let b = conv_buf(ETagValue::Real(f.to_bits()), &a, None).unwrap();
        let back = conv_value(&b, &ETagtype::REAL, 0).unwrap();
        assert!(matches!(back, ETagValue::Real(x) if x == f.to_bits()), "value {f}");
    }
}

#[test]
fn encode_int16_truncates_silently_to_the_low_sixteen_bits() {
    let b = conv_buf(ETagValue::Int(0x12345), &addr(ETagtype::INT, 0), None).unwrap();
    assert_eq!(b, vec![0x23, 0x45]);
    let back = conv_value(&b, &ETagtype::INT, 0).unwrap();
    assert!(matches!(back, ETagValue::Int(0x2345)));
}

#[test]
fn encode_bool_sets_its_bit_and_keeps_the_neighbours() {
    let a = addr(ETagtype::BOOL, 0);
    let b = conv_buf(ETagValue::Bool(true), &a, Some(0b0100_0001)).unwrap();
    assert_eq!(b, vec![0b1100_0001]);
}

#[test]
fn encode_bool_clears_its_bit_and_keeps_the_neighbours() {
    let a = addr(ETagtype::BOOL, 0);
    let b = conv_buf(ETagValue::Bool(false), &a, Some(0b1100_0001)).unwrap();
    assert_eq!(b, vec![0b0100_0001]);
}

#[test]
fn encode_bool_without_current_byte_is_a_zero_placeholder() {
    let a = addr(ETagtype::BOOL, 3);
    let b = conv_buf(ETagValue::Bool(true), &a, None).unwrap();
    assert_eq!(b, vec![0]);
}

#[test]
fn encode_rejects_a_value_of_the_wrong_variant() {
    let r = conv_buf(ETagValue::Real(1065353216), &addr(ETagtype::INT, 0), None);
    assert!(matches!(r, Err(CodecError::InvalidValueForType)));
    let r = conv_buf(ETagValue::Int(1), &addr(ETagtype::BOOL, 0), None);
    assert!(matches!(r, Err(CodecError::InvalidValueForType)));
    let r = conv_buf(ETagValue::Bool(true), &addr(ETagtype::REAL, 0), None);
    assert!(matches!(r, Err(CodecError::InvalidValueForType)));
}
