use tlv_codec::{DecodeError, Tag, Varint, TLV};

#[test]
fn read_data() {
    let v = [0x01, 0x02, 0x01];
    let tlv = TLV::from_data(&v, 0).unwrap();
    assert_eq!(tlv.to_binary().as_slice(), [0x01]);
    assert_eq!(tlv.pos(), 3);
}

#[test]
fn tlv() {
    let v = [0x01, 0x02, 0x01];
    let mut tlv = TLV::default();
    tlv.read(&v, 0).unwrap();
    assert_eq!(tlv.to_varint(), Ok(-1));
    assert_eq!(tlv.to_binary().as_slice(), [1]);
}

#[test]
fn raw_tlv() {
    let v = [0x01, 0x02, 0x01];
    let mut t = Tag::default();
    t.read_type(v[0]);
    assert_eq!(t.get_type(), 0x01);
    let mut vlen = Varint::new();
    let pos_delta = vlen.read(&v, 1).unwrap();
    assert_eq!(pos_delta, 1);
    let len = vlen.to_i64();
    assert_eq!(len, 1);
    let mut vval = Varint::new();
    vval.read(&v, (len as usize) + 1).unwrap();
    assert_eq!(vval.to_i64(), -1);
}

#[test]
fn to_string() {
    let v = [0x00, 0x02, 0x43];
    let mut tlv = TLV::default();
    tlv.read(&v, 0).unwrap();
    assert_eq!(tlv.to_string().unwrap(), "C");
}

#[test]
fn to_string2() {
    let v = [0x00, 0x08, 240, 159, 146, 150];
    let mut tlv = TLV::default();
    tlv.read(&v, 0).unwrap();
    assert_eq!(tlv.to_binary().as_slice(), [240, 159, 146, 150]);
    assert_eq!(tlv.to_string().unwrap(), "💖");
}

#[test]
fn basic_record_fields() {
    let v = [0x01, 0x02, 0x01];
    let tlv = TLV::from_data(&v, 0).unwrap();
    assert_eq!(tlv.tag().get_type(), 0x01);
    assert_eq!(tlv.len(), 1);
    assert_eq!(tlv.to_binary().as_slice(), [0x01]);
    assert_eq!(tlv.pos(), 3);
    assert_eq!(tlv.to_varint(), Ok(-1));
}

#[test]
fn utf8_payload_has_four_bytes() {
    let v = [0x00, 0x08, 0xF0, 0x9F, 0x92, 0x96];
    let tlv = TLV::from_data(&v, 0).unwrap();
    assert_eq!(tlv.tag().get_type(), 0x00);
    assert_eq!(tlv.len(), 4);
    assert_eq!(tlv.to_binary().as_slice(), [0xF0, 0x9F, 0x92, 0x96]);
    assert_eq!(tlv.to_string().unwrap(), "\u{1F496}");
    assert_eq!(tlv.pos(), 6);
}

#[test]
fn malformed_utf8_is_invalid_encoding() {
    let v = [0x00, 0x02, 0xFF];
    let tlv = TLV::from_data(&v, 0).unwrap();
    assert_eq!(tlv.to_string(), Err(DecodeError::InvalidEncoding));
    let v = [0x00, 0x04, 0xC3, 0x28];
    let tlv = TLV::from_data(&v, 0).unwrap();
    assert_eq!(tlv.to_string(), Err(DecodeError::InvalidEncoding));
}

#[test]
fn empty_payload_is_empty_string() {
    let v = [0x00, 0x00];
    let tlv = TLV::from_data(&v, 0).unwrap();
    assert_eq!(tlv.len(), 0);
    assert_eq!(tlv.to_string().unwrap(), "");
    assert_eq!(tlv.pos(), 2);
}

#[test]
fn integer_payload_must_be_one_whole_varint() {
    let empty = TLV::from_data(&[0x01, 0x00], 0).unwrap();
    assert_eq!(empty.to_varint(), Err(DecodeError::InvalidEncoding));
    let trailing = TLV::from_data(&[0x01, 0x04, 0x01, 0x01], 0).unwrap();
    assert_eq!(trailing.to_varint(), Err(DecodeError::InvalidEncoding));
    let truncated = TLV::from_data(&[0x01, 0x02, 0x81], 0).unwrap();
    assert_eq!(truncated.to_varint(), Err(DecodeError::InvalidEncoding));
    let extra = TLV::from_data(&[0x01, 0x06, 0xFE, 0x03, 0x00], 0).unwrap();
    assert_eq!(extra.to_varint(), Err(DecodeError::InvalidEncoding));
    let two = TLV::from_data(&[0x01, 0x04, 0xFE, 0x03], 0).unwrap();
    assert_eq!(two.to_varint(), Ok(255));
}

#[test]
fn to_uuid_is_not_implemented() {
    let tlv = TLV::from_data(&[0x03, 0x02, 0x01], 0).unwrap();
    assert_eq!(tlv.to_uuid(), Err(DecodeError::NotImplemented));
}

#[test]
fn empty_buffer_is_invalid_input() {
    assert_eq!(TLV::from_data(&[], 0).unwrap_err(), DecodeError::InvalidInput);
    assert_eq!(TLV::from_data(&[0x01, 0x02, 0x01], 3).unwrap_err(), DecodeError::InvalidInput);
    assert_eq!(TLV::from_data(&[0x01, 0x02, 0x01], 7).unwrap_err(), DecodeError::InvalidInput);
}

#[test]
fn tag_without_length_is_invalid_input() {
    assert_eq!(TLV::from_data(&[0x01], 0).unwrap_err(), DecodeError::InvalidInput);
}

#[test]
fn truncated_length_is_invalid_input() {
    assert_eq!(TLV::from_data(&[0x01, 0x80], 0).unwrap_err(), DecodeError::InvalidInput);
    assert_eq!(TLV::from_data(&[0x01, 0x81, 0x82], 0).unwrap_err(), DecodeError::InvalidInput);
}

#[test]
fn declared_length_past_end_is_out_of_bounds() {
    assert_eq!(TLV::from_data(&[0x01, 0x04, 0x01], 0).unwrap_err(), DecodeError::OutOfBounds);
    assert_eq!(TLV::from_data(&[0x00, 0x02], 0).unwrap_err(), DecodeError::OutOfBounds);
    assert_eq!(TLV::from_data(&[0x00, 0xFE, 0x03, 0x41], 0).unwrap_err(), DecodeError::OutOfBounds);
}

#[test]
fn negative_length_is_invalid_encoding() {
    assert_eq!(TLV::from_data(&[0x01, 0x01, 0x01], 0).unwrap_err(), DecodeError::InvalidEncoding);
}

#[test]
fn overlong_length_is_invalid_encoding() {
    let mut v = vec![0x01];
    v.extend_from_slice(&[0xFF; 9]);
    v.push(0x02);
    assert_eq!(TLV::from_data(&v, 0).unwrap_err(), DecodeError::InvalidEncoding);
}

#[test]
fn failed_read_leaves_record_unchanged() {
    let mut tlv = TLV::from_data(&[0x00, 0x02, 0x43], 0).unwrap();
    assert_eq!(tlv.read(&[0x01, 0x04, 0x01], 0), Err(DecodeError::OutOfBounds));
    assert_eq!(tlv.tag().get_type(), 0x00);
    assert_eq!(tlv.to_binary().as_slice(), [0x43]);
    assert_eq!(tlv.pos(), 3);
}

#[test]
fn consecutive_records_follow_the_cursor() {
    let v = [0x01, 0x02, 0x01, 0x00, 0x04, 0x68, 0x69, 0x80, 0x00];
    let first = TLV::from_data(&v, 0).unwrap();
    assert_eq!(first.to_varint(), Ok(-1));
    assert_eq!(first.pos(), 3);
    let second = TLV::from_data(&v, first.pos()).unwrap();
    assert_eq!(second.to_string().unwrap(), "hi");
    assert_eq!(second.pos(), 7);
    let third = TLV::from_data(&v, second.pos()).unwrap();
    assert_eq!(third.tag().get_type(), 0x80);
    assert_eq!(third.to_binary().len(), 0);
    assert_eq!(third.pos(), 9);
    assert_eq!(TLV::from_data(&v, third.pos()).unwrap_err(), DecodeError::InvalidInput);
}

#[test]
fn default_record_is_empty() {
    let tlv = TLV::default();
    assert_eq!(tlv.tag().get_type(), 0);
    assert_eq!(tlv.len(), 0);
    assert_eq!(tlv.to_binary().len(), 0);
    assert_eq!(tlv.pos(), 0);
}

#[test]
fn payload_is_an_owned_copy() {
    let mut v = vec![0x80, 0x04, 0xAA, 0xBB];
    let tlv = TLV::from_data(&v, 0).unwrap();
    v[2] = 0x00;
    v.clear();
    assert_eq!(tlv.to_binary().as_slice(), [0xAA, 0xBB]);
}
