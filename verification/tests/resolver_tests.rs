use s7_tags::resolver::conv_address;
use s7_tags::types::AddressError;
use s7_tags::types::ETagtype;
use s7_tags::types::S7Area;

#[test]
fn db2w2_int_resolves() {
    let a = conv_address("DB2W2", ETagtype::INT).unwrap();
    assert!(matches!(a.area, S7Area::DB));
    assert_eq!(a.dbnb, 2);
    assert_eq!(a.start, 2);
    assert_eq!(a.size, 2);
    assert_eq!(a.bit, 0);
    assert!(matches!(a.datatype, ETagtype::INT));
}

#[test]
fn mx10_5_bool_resolves() {
    let a = conv_address("MX10.5", ETagtype::BOOL).unwrap();
    assert!(matches!(a.area, S7Area::MK));
    assert_eq!(a.dbnb, 0);
    assert_eq!(a.start, 10);
    assert_eq!(a.size, 1);
    assert_eq!(a.bit, 5);
}

#[test]
fn ix0_0_bool_resolves() {
    let a = conv_address("IX0.0", ETagtype::BOOL).unwrap();
    assert!(matches!(a.area, S7Area::PE));
    assert_eq!(a.start, 0);
    assert_eq!(a.bit, 0);
    assert_eq!(a.size, 1);
}

#[test]
fn qx0_0_bool_resolves() {
    let a = conv_address("QX0.0", ETagtype::BOOL).unwrap();
    assert!(matches!(a.area, S7Area::PA));
    assert_eq!(a.start, 0);
    assert_eq!(a.bit, 0);
}

#[test]
fn md106_real_resolves() {
    let a = conv_address("MD106", ETagtype::REAL).unwrap();
    assert!(matches!(a.area, S7Area::MK));
    assert_eq!(a.start, 106);
    assert_eq!(a.size, 4);
    assert_eq!(a.bit, 0);
}

#[test]
fn md102_dint_resolves() {
    let a = conv_address("MD102", ETagtype::DINT).unwrap();
    assert!(matches!(a.area, S7Area::MK));
    assert_eq!(a.start, 102);
    assert_eq!(a.size, 4);
}

#[test]
fn bool_without_bit_offset_defaults_to_zero() {
    let a = conv_address("MX10", ETagtype::BOOL).unwrap();
    assert_eq!(a.bit, 0);
    assert_eq!(a.start, 10);
}

#[test]
fn dbw2_missing_block_number_is_malformed() {
    let r = conv_address("DBW2", ETagtype::INT);
    assert!(matches!(r, Err(AddressError::Malformed)));
}

#[test]
fn db2x9_with_int_is_type_mismatch() {
    let r = conv_address("DB2X9", ETagtype::INT);
    assert!(matches!(r, Err(AddressError::TypeMismatch)));
}

#[test]
fn mw100_with_bool_is_type_mismatch() {
    let r = conv_address("MW100", ETagtype::BOOL);
    assert!(matches!(r, Err(AddressError::TypeMismatch)));
}

#[test]
fn ix0_8_bit_out_of_range_is_malformed() {
    let r = conv_address("IX0.8", ETagtype::BOOL);
    assert!(matches!(r, Err(AddressError::Malformed)));
}

#[test]
fn bit_offset_on_word_suffix_is_type_mismatch() {
    let r = conv_address("MW100.5", ETagtype::INT);
    assert!(matches!(r, Err(AddressError::TypeMismatch)));
}

#[test]
fn block_number_beyond_byte_is_malformed() {
    let r = conv_address("DB300W2", ETagtype::INT);
    assert!(matches!(r, Err(AddressError::Malformed)));
}

#[test]
fn byte_offset_beyond_byte_is_malformed() {
    let r = conv_address("MW300", ETagtype::INT);
    assert!(matches!(r, Err(AddressError::Malformed)));
}

#[test]
fn empty_string_is_malformed() {
    let r = conv_address("", ETagtype::INT);
    assert!(matches!(r, Err(AddressError::Malformed)));
}

#[test]
fn trailing_garbage_is_malformed() {
    let r = conv_address("DB2W2x", ETagtype::INT);
    assert!(matches!(r, Err(AddressError::Malformed)));
}

#[test]
fn w_suffix_with_real_is_type_mismatch() {
    let r = conv_address("MW10", ETagtype::REAL);
    assert!(matches!(r, Err(AddressError::TypeMismatch)));
}

#[test]
fn d_suffix_with_bool_is_type_mismatch() {
    let r = conv_address("MD10", ETagtype::BOOL);
    assert!(matches!(r, Err(AddressError::TypeMismatch)));
}

/// Re-deriving the string from the resolved structural fields and
/// resolving it again gives the same address.
#[test]
fn resolved_fields_round_trip_through_the_grammar() {
    let cases = [
        ("DB2W2", ETagtype::INT),
        ("MX10.5", ETagtype::BOOL),
        ("IX0.0", ETagtype::BOOL),
        ("QX7.3", ETagtype::BOOL),
        ("MD106", ETagtype::REAL),
        ("DB255D255", ETagtype::DINT),
        ("MW104", ETagtype::INT),
    ];
    for (s, t) in cases {
        let a = conv_address(s, t).unwrap();
        let area = match a.area {
            S7Area::MK => "M".to_string(),
            S7Area::PE => "I".to_string(),
            S7Area::PA => "Q".to_string(),
            S7Area::DB => format!("DB{}", a.dbnb),
        };
        let suffix = match a.datatype {
            ETagtype::BOOL => "X",
            ETagtype::INT => "W",
            ETagtype::DINT | ETagtype::REAL => "D",
        };
        let rebuilt = if matches!(a.datatype, ETagtype::BOOL) {
            format!("{}{}{}.{}", area, suffix, a.start, a.bit)
        } else {
            format!("{}{}{}", area, suffix, a.start)
        };
        let b = conv_address(&rebuilt, a.datatype).unwrap();
        assert_eq!(a, b);
    }
}
