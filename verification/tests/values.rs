use postgres_protocol::error::PgError;
use postgres_protocol::types::{
    array_from_sql, array_to_sql, bool_from_sql, bool_to_sql, bytea_from_sql, bytea_to_sql,
    char_from_sql, char_to_sql, date_from_sql, date_to_sql, hstore_from_sql, hstore_to_sql,
    int2_from_sql, int2_to_sql, int4_from_sql, int4_to_sql, int8_from_sql, int8_to_sql,
    macaddr_from_sql, macaddr_to_sql, oid_from_sql, oid_to_sql, text_from_sql, text_to_sql,
    time_from_sql, time_to_sql, timestamp_from_sql, timestamp_to_sql, uuid_from_sql, uuid_to_sql,
    varbit_from_sql, varbit_to_sql, ArrayDimension,
};

#[test]
fn bool() {
    let mut buf = vec![];
    bool_to_sql(true, &mut buf);
    assert_eq!(bool_from_sql(&buf).unwrap(), true);

    let mut buf = vec![];
    bool_to_sql(false, &mut buf);
    assert_eq!(bool_from_sql(&buf).unwrap(), false);
}

#[test]
fn int2() {
    let mut buf = vec![];
    int2_to_sql(0x0102, &mut buf);
    assert_eq!(int2_from_sql(&buf).unwrap(), 0x0102);
}

#[test]
fn int4() {
    let mut buf = vec![];
    int4_to_sql(0x01020304, &mut buf);
    assert_eq!(int4_from_sql(&buf).unwrap(), 0x01020304);
}

#[test]
fn int8() {
    let mut buf = vec![];
    int8_to_sql(0x0102030405060708, &mut buf);
    assert_eq!(int8_from_sql(&buf).unwrap(), 0x0102030405060708);
}

#[test]
fn hstore() {
    let entries = vec![
        ("hello".to_string(), Some("world".to_string())),
        ("hola".to_string(), None),
    ];

    let mut buf = vec![];
    hstore_to_sql(&entries, &mut buf).unwrap();
    let mut it = hstore_from_sql(&buf).unwrap();
    let (k1, v1) = it.next().unwrap().unwrap();
    assert_eq!(k1, "hello");
    assert_eq!(v1, Some("world"));
    let (k2, v2) = it.next().unwrap().unwrap();
    assert_eq!(k2, "hola");
    assert_eq!(v2, None);
    assert!(it.next().unwrap().is_none());
}

#[test]
fn varbit() {
    let len = 12;
    let bits = [0b0010_1011, 0b0000_1111];

    let mut buf = vec![];
    varbit_to_sql(len, &bits, &mut buf).unwrap();
    let out = varbit_from_sql(&buf).unwrap();
    assert_eq!(out.len(), len);
    assert_eq!(out.bytes(), bits);
}

#[test]
fn array() {
    let dimensions = [
        ArrayDimension { len: 1, lower_bound: 10 },
        ArrayDimension { len: 2, lower_bound: 0 },
    ];
    let values: Vec<Option<Vec<u8>>> = vec![None, Some(b"hello".to_vec())];

    let mut buf = vec![];
    array_to_sql(&dimensions, true, 10, &values, &mut buf).unwrap();

    let array = array_from_sql(&buf).unwrap();
    assert_eq!(array.has_nulls(), true);
    assert_eq!(array.element_type(), 10);

    let mut dims = array.dimensions();
    assert_eq!(dims.next().unwrap().unwrap(), dimensions[0]);
    assert_eq!(dims.next().unwrap().unwrap(), dimensions[1]);
    assert!(dims.next().unwrap().is_none());

    let mut vals = array.values();
    assert_eq!(vals.next().unwrap().unwrap(), None);
    assert_eq!(vals.next().unwrap().unwrap(), Some(&b"hello"[..]));
    assert!(vals.next().unwrap().is_none());
}

#[test]
fn int_wire_bytes_exact() {
    let mut buf = vec![];
    int2_to_sql(0x0102, &mut buf);
    assert_eq!(buf, [0x01, 0x02]);

    let mut buf = vec![];
    int4_to_sql(-2, &mut buf);
    assert_eq!(buf, [0xff, 0xff, 0xff, 0xfe]);

    let mut buf = vec![];
    int8_to_sql(0x0102030405060708, &mut buf);
    assert_eq!(buf, [1, 2, 3, 4, 5, 6, 7, 8]);

    let mut buf = vec![];
    oid_to_sql(0xdeadbeef, &mut buf);
    assert_eq!(buf, [0xde, 0xad, 0xbe, 0xef]);
}

#[test]
fn oid_round_trip() {
    let mut buf = vec![];
    oid_to_sql(4294967295, &mut buf);
    assert_eq!(oid_from_sql(&buf).unwrap(), 4294967295);
}

#[test]
fn char_round_trip() {
    let mut buf = vec![];
    char_to_sql(-5, &mut buf);
    assert_eq!(char_from_sql(&buf).unwrap(), -5);
}

#[test]
fn text_round_trip() {
    let mut buf = vec![];
    text_to_sql("grüße, world", &mut buf);
    assert_eq!(text_from_sql(&buf).unwrap(), "grüße, world");
}

#[test]
fn text_rejects_invalid_utf8() {
    assert_eq!(text_from_sql(&[0xff, 0xfe]), Err(PgError::InvalidUtf8));
}

#[test]
fn bytea_round_trip() {
    let mut buf = vec![];
    bytea_to_sql(&[0, 1, 2, 255], &mut buf);
    assert_eq!(bytea_from_sql(&buf), &[0, 1, 2, 255]);
}

#[test]
fn timestamp_round_trip() {
    let mut buf = vec![];
    timestamp_to_sql(-1_000_000, &mut buf);
    assert_eq!(timestamp_from_sql(&buf).unwrap(), -1_000_000);
}

#[test]
fn date_round_trip() {
    let mut buf = vec![];
    date_to_sql(7670, &mut buf);
    assert_eq!(date_from_sql(&buf).unwrap(), 7670);
}

#[test]
fn time_round_trip() {
    let mut buf = vec![];
    time_to_sql(86_399_999_999, &mut buf);
    assert_eq!(time_from_sql(&buf).unwrap(), 86_399_999_999);
}

#[test]
fn macaddr_round_trip() {
    let addr = [1, 2, 3, 4, 5, 6];
    let mut buf = vec![];
    macaddr_to_sql(addr, &mut buf);
    assert_eq!(macaddr_from_sql(&buf).unwrap(), addr);
}

#[test]
fn uuid_round_trip() {
    let id = [0, 1, 2, 3, 4, 5, 6, 7, 8, 9, 10, 11, 12, 13, 14, 15];
    let mut buf = vec![];
    uuid_to_sql(id, &mut buf);
    assert_eq!(uuid_from_sql(&buf).unwrap(), id);
}

#[test]
fn scalar_decoders_reject_wrong_length() {
    assert_eq!(bool_from_sql(&[]), Err(PgError::InvalidBufferSize));
    assert_eq!(bool_from_sql(&[1, 0]), Err(PgError::InvalidBufferSize));
    assert_eq!(char_from_sql(&[]), Err(PgError::InvalidBufferSize));
    assert_eq!(int2_from_sql(&[1]), Err(PgError::InvalidBufferSize));
    assert_eq!(int4_from_sql(&[1, 2, 3]), Err(PgError::InvalidBufferSize));
    assert_eq!(int8_from_sql(&[1; 9]), Err(PgError::InvalidBufferSize));
    assert_eq!(oid_from_sql(&[1; 5]), Err(PgError::InvalidBufferSize));
    assert_eq!(timestamp_from_sql(&[1; 7]), Err(PgError::InvalidMessageLength));
    assert_eq!(date_from_sql(&[1; 5]), Err(PgError::InvalidMessageLength));
    assert_eq!(time_from_sql(&[1; 9]), Err(PgError::InvalidMessageLength));
    assert_eq!(macaddr_from_sql(&[1; 5]), Err(PgError::InvalidMessageLength));
    assert_eq!(uuid_from_sql(&[1; 15]), Err(PgError::InvalidMessageLength));
}

#[test]
fn varbit_rejects_bad_shapes() {
    assert_eq!(varbit_from_sql(&[0, 0]).err().unwrap(), PgError::UnexpectedEof);
    assert_eq!(
        varbit_from_sql(&[0xff, 0xff, 0xff, 0xff]).err().unwrap(),
        PgError::InvalidBitLength
    );
    // 12 bits require 2 bytes, not 3.
    assert_eq!(
        varbit_from_sql(&[0, 0, 0, 12, 1, 2, 3]).err().unwrap(),
        PgError::InvalidMessageLength
    );
}

#[test]
fn varbit_empty() {
    let mut buf = vec![];
    varbit_to_sql(0, &[], &mut buf).unwrap();
    let out = varbit_from_sql(&buf).unwrap();
    assert_eq!(out.len(), 0);
    assert_eq!(out.bytes(), &[] as &[u8]);
}

#[test]
fn hstore_rejects_negative_count() {
    let buf = [0xff, 0xff, 0xff, 0xff];
    assert_eq!(hstore_from_sql(&buf).err().unwrap(), PgError::InvalidEntryCount);
}

#[test]
fn hstore_rejects_negative_key_length() {
    // count 1, then a negative key length.
    let buf = [0, 0, 0, 1, 0xff, 0xff, 0xff, 0xff];
    let mut it = hstore_from_sql(&buf).unwrap();
    assert_eq!(it.next().err().unwrap(), PgError::InvalidKeyLength);
}

#[test]
fn hstore_rejects_trailing_bytes() {
    // count 0 followed by one stray byte.
    let buf = [0, 0, 0, 0, 7];
    let mut it = hstore_from_sql(&buf).unwrap();
    assert_eq!(it.next().err().unwrap(), PgError::InvalidBufferSize);
}

#[test]
fn hstore_empty() {
    let entries: Vec<(String, Option<String>)> = vec![];
    let mut buf = vec![];
    hstore_to_sql(&entries, &mut buf).unwrap();
    assert_eq!(buf, [0, 0, 0, 0]);
    let mut it = hstore_from_sql(&buf).unwrap();
    assert!(it.next().unwrap().is_none());
}

#[test]
fn array_rejects_negative_dimension_count() {
    let buf = [0xff, 0xff, 0xff, 0xff, 0, 0, 0, 0, 0, 0, 0, 10];
    assert_eq!(array_from_sql(&buf).err().unwrap(), PgError::InvalidDimensionCount);
}

#[test]
fn array_rejects_negative_dimension_size() {
    // one dimension with a negative length.
    let buf = [
        0, 0, 0, 1, 0, 0, 0, 0, 0, 0, 0, 10, 0xff, 0xff, 0xff, 0xff, 0, 0, 0, 0,
    ];
    assert_eq!(array_from_sql(&buf).err().unwrap(), PgError::InvalidDimensionSize);
}

#[test]
fn array_rejects_element_overflow() {
    // two dimensions of 0x10000 elements each overflow a signed 32-bit
    // product.
    let buf = [
        0, 0, 0, 2, 0, 0, 0, 0, 0, 0, 0, 10, 0, 1, 0, 0, 0, 0, 0, 0, 0, 1, 0, 0, 0, 0, 0, 0,
    ];
    assert_eq!(array_from_sql(&buf).err().unwrap(), PgError::TooManyElements);
}

#[test]
fn array_values_reject_trailing_bytes() {
    // zero dimensions, then one stray byte in the value region.
    let buf = [0, 0, 0, 0, 0, 0, 0, 0, 0, 0, 0, 10, 9];
    let array = array_from_sql(&buf).unwrap();
    let mut vals = array.values();
    assert_eq!(vals.next().err().unwrap(), PgError::InvalidMessageLength);
}

#[test]
fn array_empty() {
    let dims: Vec<ArrayDimension> = vec![];
    let values: Vec<Option<Vec<u8>>> = vec![];
    let mut buf = vec![];
    array_to_sql(&dims, false, 23, &values, &mut buf).unwrap();
    let array = array_from_sql(&buf).unwrap();
    assert_eq!(array.has_nulls(), false);
    assert_eq!(array.element_type(), 23);
    let mut ds = array.dimensions();
    assert!(ds.next().unwrap().is_none());
    let mut vals = array.values();
    assert!(vals.next().unwrap().is_none());
}
