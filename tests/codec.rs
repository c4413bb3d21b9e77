use babylon_ibc::btclightclient::{BtcHeaderInfo, QueryMainChainResponse};
use babylon_ibc::codec::{parse_fields, read_i32, read_u32, read_varint, FieldValue};
use babylon_ibc::wire::decode_active_delegation;
use prost::encoding::{bytes, encode_varint, uint32, uint64};

#[test]
fn varint_round_values() {
    for v in [0u64, 1, 127, 128, 300, 16_384, u32::MAX as u64, u64::MAX] {
        let mut buf = Vec::new();
        encode_varint(v, &mut buf);
        assert_eq!(read_varint(&buf, 0), Some((v, buf.len())));
    }
}

#[test]
fn varint_limits() {
    let mut max = vec![0xffu8; 9];
    max.push(0x01);
    assert_eq!(read_varint(&max, 0), Some((u64::MAX, 10)));
    let mut too_big = vec![0xffu8; 9];
    too_big.push(0x02);
    assert_eq!(read_varint(&too_big, 0), None);
    let mut too_long = vec![0x80u8; 10];
    too_long.push(0x00);
    assert_eq!(read_varint(&too_long, 0), None);
    assert_eq!(read_varint(&[0x96, 0x01], 0), Some((150, 2)));
    assert_eq!(read_varint(&[0x96], 0), None);
    assert_eq!(read_varint(&[0x05, 0x96, 0x01], 1), Some((150, 3)));
}

#[test]
fn narrow_fields_keep_low_bits() {
    assert_eq!(read_u32(0x1_0000_0005), 5);
    assert_eq!(read_i32(u64::MAX), -1);
    assert_eq!(read_i32(0x8000_0000), i32::MIN);
    let mut buf = Vec::new();
    uint64::encode(4, &0x1_0000_0007u64, &mut buf);
    let d = decode_active_delegation(&buf).unwrap();
    assert_eq!(d.start_height, 7);
}

#[test]
fn fields_are_split_in_order() {
    let mut buf = Vec::new();
    uint32::encode(1, &42, &mut buf);
    bytes::encode(2, &vec![1u8, 2, 3], &mut buf);
    buf.extend_from_slice(&[0x1d, 1, 2, 3, 4]); // field 3, four fixed bytes
    let fs = parse_fields(&buf).unwrap();
    assert_eq!(fs.len(), 3);
    assert_eq!((fs[0].number, &fs[0].value), (1, &FieldValue::Varint(42)));
    assert_eq!((fs[1].number, &fs[1].value), (2, &FieldValue::Bytes(vec![1, 2, 3])));
    assert_eq!((fs[2].number, &fs[2].value), (3, &FieldValue::Fixed(vec![1, 2, 3, 4])));
    assert_eq!(parse_fields(&[0x1d, 1, 2]), None);
}

#[test]
fn header_info_decodes() {
    let mut buf = Vec::new();
    bytes::encode(1, &vec![0xaau8; 80], &mut buf);
    bytes::encode(2, &vec![0xbbu8; 32], &mut buf);
    uint64::encode(3, &840_000, &mut buf);
    bytes::encode(4, &vec![0x01u8, 0x00], &mut buf);
    let h = BtcHeaderInfo::decode(&buf).unwrap();
    assert_eq!(h, BtcHeaderInfo { header: vec![0xaa; 80], hash: vec![0xbb; 32], height: 840_000, work: vec![1, 0] });
    let mut page = Vec::new();
    bytes::encode(1, &vec![9u8], &mut page);
    uint64::encode(2, &12, &mut page);
    let mut resp = Vec::new();
    bytes::encode(1, &buf, &mut resp);
    bytes::encode(1, &buf, &mut resp);
    bytes::encode(2, &page, &mut resp);
    let m = QueryMainChainResponse::decode(&resp).unwrap();
    assert_eq!(m.headers.len(), 2);
    assert_eq!(m.headers[1].height, 840_000);
    assert_eq!(m.pagination.unwrap().total, 12);
    assert_eq!(BtcHeaderInfo::decode(&[0x18, 0x80]), None);
}
