use s7_tags::engine::read_list;
use s7_tags::engine::read_tag;
use s7_tags::engine::write_list;
use s7_tags::engine::write_tag;
use s7_tags::sim::loc_key;
use s7_tags::sim::SimTransport;
use s7_tags::types::AddressError;
use s7_tags::types::BatchError;
use s7_tags::types::CodecError;
use s7_tags::types::ETag;
use s7_tags::types::ETagValue;
use s7_tags::types::ETagtype;
use s7_tags::types::S7Area;
use s7_tags::types::TagError;

fn tag(address: &str, datatype: ETagtype) -> ETag {
    ETag { name: String::from("test"), address: String::from(address), datatype }
}

#[test]
fn write_then_read_int16() {
    let mut sim = SimTransport::new();
    let t = tag("DB2W2", ETagtype::INT);
    assert!(matches!(write_tag(&mut sim, &t, ETagValue::Int(8712)), Ok(true)));
    let v = read_tag(&mut sim, &t).unwrap();
    assert!(matches!(v, ETagValue::Int(8712)));
}

#[test]
fn write_then_read_int32() {
    let mut sim = SimTransport::new();
    let t = tag("DB2D10", ETagtype::DINT);
    assert!(matches!(write_tag(&mut sim, &t, ETagValue::Int(5842651)), Ok(true)));
    let v = read_tag(&mut sim, &t).unwrap();
    assert!(matches!(v, ETagValue::Int(5842651)));
}

#[test]
fn write_then_read_real32() {
    let mut sim = SimTransport::new();
    let t = tag("DB2D4", ETagtype::REAL);
    let bits = 565.25f32.to_bits();
    assert!(matches!(write_tag(&mut sim, &t, ETagValue::Real(bits)), Ok(true)));
    let v = read_tag(&mut sim, &t).unwrap();
    assert!(matches!(v, ETagValue::Real(b) if b == bits));
}

#[test]
fn write_then_read_bool() {
    let mut sim = SimTransport::new();
    let t = tag("DB2X9.1", ETagtype::BOOL);
    assert!(matches!(write_tag(&mut sim, &t, ETagValue::Bool(true)), Ok(true)));
    let v = read_tag(&mut sim, &t).unwrap();
    assert!(matches!(v, ETagValue::Bool(true)));
}

#[test]
fn single_bool_write_preserves_the_neighbouring_bits() {
    let mut sim = SimTransport::new();
    sim.preset(S7Area::DB, 2, 9, 0b0100_0001);
    let t = tag("DB2X9.0", ETagtype::BOOL);
    assert!(matches!(write_tag(&mut sim, &t, ETagValue::Bool(true)), Ok(true)));
    assert_eq!(sim.peek(S7Area::DB, 2, 9), 0b1100_0001);
}

#[test]
fn read_bool_picks_its_own_bit() {
    let mut sim = SimTransport::new();
    sim.preset(S7Area::DB, 2, 9, 0b0100_0000);
    let v = read_tag(&mut sim, &tag("DB2X9.1", ETagtype::BOOL)).unwrap();
    assert!(matches!(v, ETagValue::Bool(true)));
    let v = read_tag(&mut sim, &tag("DB2X9.0", ETagtype::BOOL)).unwrap();
    assert!(matches!(v, ETagValue::Bool(false)));
}

#[test]
fn read_tag_reports_a_malformed_address() {
    let mut sim = SimTransport::new();
    let r = read_tag(&mut sim, &tag("DBW2", ETagtype::INT));
    assert!(matches!(r, Err(TagError::Address(AddressError::Malformed))));
    assert_eq!(sim.area_calls, 0);
}

#[test]
fn read_tag_surfaces_a_transport_failure() {
    let mut sim = SimTransport::new();
    sim.fail_area_at = 1;
    sim.fail_code = -5;
    let r = read_tag(&mut sim, &tag("MW100", ETagtype::INT));
    assert!(
        matches!(r, Err(TagError::Transport(te)) if te.code == -5 && te.text == "simulated transport failure")
    );
}

#[test]
fn write_tag_rejects_a_value_of_the_wrong_variant() {
    let mut sim = SimTransport::new();
    let r = write_tag(&mut sim, &tag("DB2W2", ETagtype::INT), ETagValue::Bool(true));
    assert!(matches!(
        r,
        Err(TagError::Codec(CodecError::InvalidValueForType))
    ));
    assert_eq!(sim.area_calls, 0);
}

/// Two boolean writes into one byte are coalesced: one prefetch, one merged
/// byte carried identically by both grouped-write items.
#[test]
fn coalesced_bits_of_one_byte_merge_into_one_value() {
    let mut sim = SimTransport::new();
    let batch = vec![
        (tag("DB2X9.0", ETagtype::BOOL), ETagValue::Bool(true)),
        (tag("DB2X9.1", ETagtype::BOOL), ETagValue::Bool(false)),
    ];
    let results = write_list(&mut sim, &batch).unwrap();
    assert_eq!(results.len(), 2);
    assert!(results.iter().all(|r| matches!(r, Ok(true))));
    // bit offset 0 is bit 7 of the byte, offset 1 is bit 6: over a base of
    // zero the merged byte is 0b1000_0000
    assert_eq!(sim.peek(S7Area::DB, 2, 9), 0b1000_0000);
    // one prefetch of the live byte, one grouped write
    assert_eq!(sim.area_calls, 1);
    assert_eq!(sim.grouped_calls, 1);
    // both grouped-write items carried the identical merged byte
    let key = loc_key(S7Area::DB, 2, 9);
    let written: Vec<u8> =
        sim.mem.iter().filter(|e| e.0 == key).map(|e| e.1).collect();
    assert_eq!(written, vec![0b1000_0000, 0b1000_0000]);
}

#[test]
fn later_write_of_the_same_bit_wins() {
    let mut sim = SimTransport::new();
    let batch = vec![
        (tag("DB2X9.0", ETagtype::BOOL), ETagValue::Bool(true)),
        (tag("DB2X9.0", ETagtype::BOOL), ETagValue::Bool(false)),
    ];
    write_list(&mut sim, &batch).unwrap();
    assert_eq!(sim.peek(S7Area::DB, 2, 9), 0);
}

#[test]
fn coalescing_starts_from_the_live_byte() {
    let mut sim = SimTransport::new();
    sim.preset(S7Area::DB, 2, 9, 0b0000_0011);
    let batch = vec![
        (tag("DB2X9.0", ETagtype::BOOL), ETagValue::Bool(true)),
        (tag("DB2X9.7", ETagtype::BOOL), ETagValue::Bool(false)),
    ];
    write_list(&mut sim, &batch).unwrap();
    // bit 7 (offset .0) set, bit 0 (offset .7) cleared, bit 1 untouched
    assert_eq!(sim.peek(S7Area::DB, 2, 9), 0b1000_0010);
}

#[test]
fn distinct_bytes_get_their_own_prefetch() {
    let mut sim = SimTransport::new();
    let batch = vec![
        (tag("DB2W0", ETagtype::INT), ETagValue::Int(546)),
        (tag("DB2X9.0", ETagtype::BOOL), ETagValue::Bool(true)),
        (tag("DB2X9.1", ETagtype::BOOL), ETagValue::Bool(true)),
        (tag("MX10.5", ETagtype::BOOL), ETagValue::Bool(true)),
    ];
    let results = write_list(&mut sim, &batch).unwrap();
    assert_eq!(results.len(), 4);
    assert_eq!(sim.area_calls, 2);
    assert_eq!(sim.grouped_calls, 1);
    assert_eq!(sim.peek(S7Area::DB, 2, 9), 0b1100_0000);
    assert_eq!(sim.peek(S7Area::MK, 0, 10), 0b0000_0100);
    assert_eq!(sim.peek(S7Area::DB, 2, 0), 0x02);
    assert_eq!(sim.peek(S7Area::DB, 2, 1), 0x22);
}

/// 45 tags under a chunk bound of 20 make exactly 3 grouped calls, and the
/// result sequence keeps the input order.
#[test]
fn forty_five_tags_chunk_into_three_grouped_reads_in_order() {
    let mut sim = SimTransport::new();
    let mut tags = Vec::new();
    for i in 0u8..45 {
        sim.preset(S7Area::MK, 0, 2 * i + 1, i);
        tags.push(tag(&format!("MW{}", 2 * i), ETagtype::INT));
    }
    let results = read_list(&mut sim, &tags).unwrap();
    assert_eq!(results.len(), 45);
    assert_eq!(sim.grouped_calls, 3);
    for (i, r) in results.iter().enumerate() {
        assert!(matches!(r, Ok(ETagValue::Int(v)) if *v == i as i64), "slot {i}");
    }
}

/// A chunk-level failure on the second of three chunks aborts the whole
/// batch with that one transport error.
#[test]
fn chunk_failure_aborts_the_whole_write_batch() {
    let mut sim = SimTransport::new();
    sim.fail_grouped_at = 2;
    sim.fail_code = -7;
    let mut batch = Vec::new();
    for i in 0u8..45 {
        batch.push((tag(&format!("MW{}", 2 * i), ETagtype::INT), ETagValue::Int(i as i64)));
    }
    let r = write_list(&mut sim, &batch);
    assert!(matches!(r, Err(BatchError::Transport(te)) if te.code == -7));
    assert_eq!(sim.grouped_calls, 2);
}

#[test]
fn chunk_failure_aborts_the_whole_read_batch() {
    let mut sim = SimTransport::new();
    sim.fail_grouped_at = 2;
    sim.fail_code = -9;
    let tags: Vec<ETag> =
        (0u8..45).map(|i| tag(&format!("MW{}", 2 * i), ETagtype::INT)).collect();
    let r = read_list(&mut sim, &tags);
    assert!(matches!(r, Err(BatchError::Transport(te)) if te.code == -9));
    assert_eq!(sim.grouped_calls, 2);
}

#[test]
fn one_bad_address_aborts_the_batch_before_any_transport_activity() {
    let mut sim = SimTransport::new();
    let tags = vec![
        tag("MW0", ETagtype::INT),
        tag("DBW2", ETagtype::INT),
        tag("MW2", ETagtype::INT),
    ];
    let r = read_list(&mut sim, &tags);
    assert!(matches!(r, Err(BatchError::Address(AddressError::Malformed))));
    assert_eq!(sim.grouped_calls, 0);
    assert_eq!(sim.area_calls, 0);

    let batch = vec![(tag("MW100", ETagtype::BOOL), ETagValue::Bool(true))];
    let r = write_list(&mut sim, &batch);
    assert!(matches!(r, Err(BatchError::Address(AddressError::TypeMismatch))));
    assert_eq!(sim.grouped_calls, 0);
    assert_eq!(sim.area_calls, 0);
}

/// A per-item failure inside a successful chunk is isolated to its own
/// slot; the siblings still succeed.
#[test]
fn per_item_read_failure_does_not_fail_the_siblings() {
    let mut sim = SimTransport::new();
    sim.bad_items.push(loc_key(S7Area::MK, 0, 4));
    sim.item_code = 33;
    sim.preset(S7Area::MK, 0, 3, 7);
    sim.preset(S7Area::MK, 0, 7, 9);
    let tags = vec![
        tag("MW2", ETagtype::INT),
        tag("MW4", ETagtype::INT),
        tag("MW6", ETagtype::INT),
    ];
    let results = read_list(&mut sim, &tags).unwrap();
    assert!(matches!(&results[0], Ok(ETagValue::Int(7))));
    assert!(matches!(&results[1], Err(TagError::Transport(te)) if te.code == 33));
    assert!(matches!(&results[2], Ok(ETagValue::Int(9))));
}

#[test]
fn per_item_write_failure_does_not_fail_the_siblings() {
    let mut sim = SimTransport::new();
    sim.bad_items.push(loc_key(S7Area::MK, 0, 4));
    sim.item_code = 44;
    let batch = vec![
        (tag("MW2", ETagtype::INT), ETagValue::Int(7)),
        (tag("MW4", ETagtype::INT), ETagValue::Int(8)),
        (tag("MW6", ETagtype::INT), ETagValue::Int(9)),
    ];
    let results = write_list(&mut sim, &batch).unwrap();
    assert!(matches!(&results[0], Ok(true)));
    assert!(matches!(&results[1], Err(TagError::Transport(te)) if te.code == 44));
    assert!(matches!(&results[2], Ok(true)));
    assert_eq!(sim.peek(S7Area::MK, 0, 3), 7);
    assert_eq!(sim.peek(S7Area::MK, 0, 5), 0);
    assert_eq!(sim.peek(S7Area::MK, 0, 7), 9);
}

#[test]
fn empty_batches_make_no_transport_calls() {
    let mut sim = SimTransport::new();
    let results = read_list(&mut sim, &Vec::new()).unwrap();
    assert_eq!(results.len(), 0);
    let results = write_list(&mut sim, &Vec::new()).unwrap();
    assert_eq!(results.len(), 0);
    assert_eq!(sim.grouped_calls, 0);
    assert_eq!(sim.area_calls, 0);
}

/// A batch write does not abort on a value of the wrong variant: the entry
/// gets its own invalid-value error and nothing is written for it.
#[test]
fn wrong_variant_value_in_a_batch_is_an_isolated_codec_error() {
    let mut sim = SimTransport::new();
    sim.preset(S7Area::MK, 0, 0, 0xAA);
    sim.preset(S7Area::MK, 0, 1, 0xBB);
    let batch = vec![(tag("MW0", ETagtype::INT), ETagValue::Bool(true))];
    let results = write_list(&mut sim, &batch).unwrap();
    assert!(matches!(
        &results[0],
        Err(TagError::Codec(CodecError::InvalidValueForType))
    ));
    // the entry was never sent: memory untouched, no transport calls
    assert_eq!(sim.peek(S7Area::MK, 0, 0), 0xAA);
    assert_eq!(sim.peek(S7Area::MK, 0, 1), 0xBB);
    assert_eq!(sim.grouped_calls, 0);
    assert_eq!(sim.area_calls, 0);
}

#[test]
fn valid_siblings_of_a_bad_value_are_still_written() {
    let mut sim = SimTransport::new();
    let batch = vec![
        (tag("MW2", ETagtype::INT), ETagValue::Int(7)),
        (tag("MW4", ETagtype::INT), ETagValue::Bool(true)),
        (tag("MW6", ETagtype::INT), ETagValue::Int(9)),
    ];
    let results = write_list(&mut sim, &batch).unwrap();
    assert!(matches!(&results[0], Ok(true)));
    assert!(matches!(
        &results[1],
        Err(TagError::Codec(CodecError::InvalidValueForType))
    ));
    assert!(matches!(&results[2], Ok(true)));
    assert_eq!(sim.peek(S7Area::MK, 0, 3), 7);
    assert_eq!(sim.peek(S7Area::MK, 0, 4), 0);
    assert_eq!(sim.peek(S7Area::MK, 0, 5), 0);
    assert_eq!(sim.peek(S7Area::MK, 0, 7), 9);
    assert_eq!(sim.grouped_calls, 1);
}

#[test]
fn bad_value_in_a_bit_group_contributes_no_bit() {
    let mut sim = SimTransport::new();
    let batch = vec![
        (tag("DB2X9.0", ETagtype::BOOL), ETagValue::Bool(true)),
        (tag("DB2X9.1", ETagtype::BOOL), ETagValue::Int(5)),
    ];
    let results = write_list(&mut sim, &batch).unwrap();
    assert!(matches!(&results[0], Ok(true)));
    assert!(matches!(
        &results[1],
        Err(TagError::Codec(CodecError::InvalidValueForType))
    ));
    // only the valid member's bit is set
    assert_eq!(sim.peek(S7Area::DB, 2, 9), 0b1000_0000);
    assert_eq!(sim.area_calls, 1);
    assert_eq!(sim.grouped_calls, 1);
}

#[test]
fn bit_entry_with_a_bad_value_makes_no_transport_calls() {
    let mut sim = SimTransport::new();
    let batch = vec![(tag("DB2X9.0", ETagtype::BOOL), ETagValue::Int(1))];
    let results = write_list(&mut sim, &batch).unwrap();
    assert!(matches!(
        &results[0],
        Err(TagError::Codec(CodecError::InvalidValueForType))
    ));
    assert_eq!(sim.area_calls, 0);
    assert_eq!(sim.grouped_calls, 0);
}

#[test]
fn is_bool_distinguishes_the_boolean_type() {
    assert!(ETagtype::BOOL.is_bool());
    assert!(!ETagtype::INT.is_bool());
    assert!(!ETagtype::DINT.is_bool());
    assert!(!ETagtype::REAL.is_bool());
}
