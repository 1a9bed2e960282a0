//! Tests of the instantiate-reply payload decoder.

use stable_curve::proto::reply_contract_addr;

#[test]
fn reply_address_in_first_field() {
    let mut data: Vec<u8> = vec![0x0A, 5];
    data.extend_from_slice(b"terra");
    data.extend_from_slice(&[0x12, 2, 7, 7]);
    assert_eq!(reply_contract_addr(&data), Some(b"terra".to_vec()));
}

#[test]
fn reply_address_after_other_fields() {
    let mut data: Vec<u8> = vec![0x12, 3, 1, 2, 3];
    data.extend_from_slice(&[0x0A, 9]);
    data.extend_from_slice(b"terra1abc");
    assert_eq!(reply_contract_addr(&data), Some(b"terra1abc".to_vec()));
}

#[test]
fn reply_address_with_long_payload() {
    // a 130-byte address needs a two-byte length varint
    let addr = vec![b'x'; 130];
    let mut data: Vec<u8> = vec![0x0A, 0x82, 0x01];
    data.extend_from_slice(&addr);
    assert_eq!(reply_contract_addr(&data), Some(addr));
}

#[test]
fn reply_address_after_skippable_wire_types() {
    // a varint field, an eight-byte field, a four-byte field, and a
    // length-delimited field of a high number (two-byte tag), then field one
    let mut data: Vec<u8> = vec![0x10, 0x96, 0x01];
    data.extend_from_slice(&[0x19, 1, 2, 3, 4, 5, 6, 7, 8]);
    data.extend_from_slice(&[0x1D, 1, 2, 3, 4]);
    data.extend_from_slice(&[0x82, 0x01, 2, 9, 9]);
    data.extend_from_slice(&[0x0A, 5]);
    data.extend_from_slice(b"terra");
    assert_eq!(reply_contract_addr(&data), Some(b"terra".to_vec()));
}

#[test]
fn reply_rejects_malformed_payloads() {
    // empty
    assert_eq!(reply_contract_addr(&[]), None);
    // truncated payload
    assert_eq!(reply_contract_addr(&[0x0A, 5, b't']), None);
    // group wire type
    assert_eq!(reply_contract_addr(&[0x0B, 1]), None);
    // a tag varint longer than ten bytes
    let data = vec![0x80, 0x80, 0x80, 0x80, 0x80, 0x80, 0x80, 0x80, 0x80, 0x80, 0x00];
    assert_eq!(reply_contract_addr(&data), None);
    // no field one at all
    assert_eq!(reply_contract_addr(&[0x12, 1, 9]), None);
}
