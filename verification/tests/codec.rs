//! Value and varint codec behaviour on concrete bytes: the varint parse
//! table, encode/decode round trips across the type system, and the error
//! each malformed cell earns.

use cql::{
    encode_varint, parse_varint, read_cql_col, write_value, ColumnType, CqlColDescr, Error,
    InetAddr, Value,
};

#[test]
fn test_parse_varint() {
    assert_eq!(0, parse_varint(&[0]));
    assert_eq!(1, parse_varint(&[1]));
    assert_eq!(127, parse_varint(&[0x7f]));
    assert_eq!(128, parse_varint(&[0x00, 0x80]));
    assert_eq!(129, parse_varint(&[0x00, 0x81]));

    assert_eq!(-1, parse_varint(&[0xff]));
    assert_eq!(-128, parse_varint(&[0x80]));
    assert_eq!(-129, parse_varint(&[0xff, 0x7f]));
}

#[test]
fn varint_full_width() {
    assert_eq!(i64::MAX, parse_varint(&[0x7f, 0xff, 0xff, 0xff, 0xff, 0xff, 0xff, 0xff]));
    assert_eq!(i64::MIN, parse_varint(&[0x80, 0, 0, 0, 0, 0, 0, 0]));
}

#[test]
fn varint_encode_parse_round_trip() {
    for n in [0i64, 1, -1, 127, 128, -128, -129, 1 << 40, i64::MAX, i64::MIN] {
        let bytes = encode_varint(n);
        assert_eq!(bytes.len(), 8);
        assert_eq!(n, parse_varint(bytes.as_slice()));
    }
}

fn round_trip(descr: &CqlColDescr, value: Value) {
    let mut wire: Vec<u8> = Vec::new();
    write_value(&value, &mut wire).expect("value must encode");
    let (decoded, end) = read_cql_col(descr, wire.as_slice(), 0).expect("value must decode");
    assert_eq!(end, wire.len());
    assert_eq!(decoded, value);
}

#[test]
fn round_trip_primitives() {
    round_trip(&CqlColDescr::Single(ColumnType::Int), Value::CqlInt(-7));
    round_trip(&CqlColDescr::Single(ColumnType::Int), Value::CqlInt(i32::MIN));
    round_trip(&CqlColDescr::Single(ColumnType::Bigint), Value::CqlBigint(i64::MIN));
    round_trip(&CqlColDescr::Single(ColumnType::Timestamp), Value::CqlTimestamp(1_700_000_000_000));
    round_trip(&CqlColDescr::Single(ColumnType::Boolean), Value::CqlBoolean(true));
    round_trip(&CqlColDescr::Single(ColumnType::Boolean), Value::CqlBoolean(false));
    round_trip(&CqlColDescr::Single(ColumnType::VarChar), Value::CqlVarChar("asdf".to_owned()));
    round_trip(&CqlColDescr::Single(ColumnType::Text), Value::CqlText("héllo ≠ wörld".to_owned()));
    round_trip(&CqlColDescr::Single(ColumnType::Ascii), Value::CqlAscii(String::new()));
    round_trip(&CqlColDescr::Single(ColumnType::Blob), Value::CqlBlob(vec![0, 1, 2, 255]));
    round_trip(&CqlColDescr::Single(ColumnType::VarInt), Value::CqlVarInt(-129));
    round_trip(
        &CqlColDescr::Single(ColumnType::Float),
        Value::CqlFloat(1.2345f32.to_bits()),
    );
    round_trip(
        &CqlColDescr::Single(ColumnType::Double),
        Value::CqlDouble(6.02214076e23f64.to_bits()),
    );
    round_trip(&CqlColDescr::Single(ColumnType::UUID), Value::CqlUUID([7; 16]));
    round_trip(&CqlColDescr::Single(ColumnType::TimeUUID), Value::CqlTimeUUID([9; 16]));
    round_trip(
        &CqlColDescr::Single(ColumnType::Inet),
        Value::CqlInet(InetAddr::V4([127, 0, 0, 1])),
    );
    round_trip(&CqlColDescr::Single(ColumnType::Inet), Value::CqlInet(InetAddr::V6([1; 16])));
    round_trip(&CqlColDescr::Single(ColumnType::Int), Value::CqlNull);
    round_trip(
        &CqlColDescr::Custom("org.example.Type".to_owned()),
        Value::CqlCustom("org.example.Type".to_owned(), vec![1, 2, 3]),
    );
}

#[test]
fn round_trip_collections() {
    let list_of_int = CqlColDescr::List(Box::new(CqlColDescr::Single(ColumnType::Int)));
    round_trip(
        &list_of_int,
        Value::CqlList(vec![Value::CqlInt(1), Value::CqlNull, Value::CqlInt(3)]),
    );
    round_trip(&list_of_int, Value::CqlList(Vec::new()));

    let set_of_text = CqlColDescr::SetOf(Box::new(CqlColDescr::Single(ColumnType::Text)));
    round_trip(
        &set_of_text,
        Value::CqlSet(vec![Value::CqlText("a".to_owned()), Value::CqlText("b".to_owned())]),
    );

    let map_text_bigint = CqlColDescr::MapOf(
        Box::new(CqlColDescr::Single(ColumnType::Text)),
        Box::new(CqlColDescr::Single(ColumnType::Bigint)),
    );
    round_trip(
        &map_text_bigint,
        Value::CqlMap(vec![
            (Value::CqlText("k1".to_owned()), Value::CqlBigint(1)),
            (Value::CqlText("k2".to_owned()), Value::CqlBigint(-2)),
        ]),
    );

    let tuple = CqlColDescr::Tuple(vec![
        CqlColDescr::Single(ColumnType::Int),
        CqlColDescr::List(Box::new(CqlColDescr::Single(ColumnType::Boolean))),
    ]);
    round_trip(
        &tuple,
        Value::CqlTuple(vec![
            Value::CqlInt(5),
            Value::CqlList(vec![Value::CqlBoolean(false), Value::CqlBoolean(true)]),
        ]),
    );

    let nested = CqlColDescr::List(Box::new(CqlColDescr::MapOf(
        Box::new(CqlColDescr::Single(ColumnType::Text)),
        Box::new(CqlColDescr::Tuple(vec![
            CqlColDescr::Single(ColumnType::Int),
            CqlColDescr::List(Box::new(CqlColDescr::Single(ColumnType::Boolean))),
        ])),
    )));
    round_trip(
        &nested,
        Value::CqlList(vec![Value::CqlMap(vec![(
            Value::CqlText("deep".to_owned()),
            Value::CqlTuple(vec![
                Value::CqlInt(-1),
                Value::CqlList(vec![Value::CqlBoolean(true)]),
            ]),
        )])]),
    );
}

#[test]
fn null_wire_is_minus_one() {
    let mut wire: Vec<u8> = Vec::new();
    write_value(&Value::CqlNull, &mut wire).expect("null must encode");
    assert_eq!(wire, vec![0xff, 0xff, 0xff, 0xff]);
    let mut other: Vec<u8> = Vec::new();
    write_value(&Value::CqlInt(-1), &mut other).expect("int must encode");
    assert_eq!(&other[0..4], &[0, 0, 0, 4]);
}

#[test]
fn encode_unimplemented_values() {
    for v in [
        Value::CqlCounter(1),
        Value::CqlDecimal(2, 100),
        Value::CqlUDT,
        Value::CqlUnknown,
    ] {
        let mut wire: Vec<u8> = Vec::new();
        assert_eq!(write_value(&v, &mut wire), Err(Error::Unimplemented));
        assert!(wire.is_empty());
    }
}

#[test]
fn decode_length_errors() {
    // An Int cell whose length is not four violates the protocol.
    let bad_int = [0, 0, 0, 3, 1, 2, 3];
    assert_eq!(
        read_cql_col(&CqlColDescr::Single(ColumnType::Int), &bad_int, 0),
        Err(Error::Protocol)
    );
    // A cell announcing more bytes than remain ends the stream early.
    let truncated = [0, 0, 0, 4, 1, 2];
    assert_eq!(
        read_cql_col(&CqlColDescr::Single(ColumnType::Int), &truncated, 0),
        Err(Error::UnexpectedEOF)
    );
    // A negative length other than -1 violates the protocol.
    let negative = [0xff, 0xff, 0xff, 0xfe];
    assert_eq!(
        read_cql_col(&CqlColDescr::Single(ColumnType::Int), &negative, 0),
        Err(Error::Protocol)
    );
    // A varint cell beyond eight bytes exceeds the widened range.
    let wide = [0, 0, 0, 9, 1, 2, 3, 4, 5, 6, 7, 8, 9];
    assert_eq!(
        read_cql_col(&CqlColDescr::Single(ColumnType::VarInt), &wide, 0),
        Err(Error::Unimplemented)
    );
    // A string cell that is not UTF-8 is rejected as such.
    let bad_utf8 = [0, 0, 0, 2, 0xff, 0xfe];
    assert_eq!(
        read_cql_col(&CqlColDescr::Single(ColumnType::Text), &bad_utf8, 0),
        Err(Error::Utf8)
    );
}

#[test]
fn decode_skips_unknown_leaf() {
    // An unknown leaf id consumes exactly the announced bytes.
    let cell = [0, 0, 0, 3, 9, 9, 9, 77];
    let (v, end) = read_cql_col(&CqlColDescr::Single(ColumnType::Unknown), &cell, 0).unwrap();
    assert_eq!(v, Value::CqlUnknown);
    assert_eq!(end, 7);
    let (v2, end2) = read_cql_col(&CqlColDescr::Single(ColumnType::UDT), &cell, 0).unwrap();
    assert_eq!(v2, Value::CqlUnknown);
    assert_eq!(end2, 7);
}

#[test]
fn decode_counter_unimplemented() {
    let cell = [0, 0, 0, 8, 0, 0, 0, 0, 0, 0, 0, 1];
    assert_eq!(
        read_cql_col(&CqlColDescr::Single(ColumnType::Counter), &cell, 0),
        Err(Error::Unimplemented)
    );
}

#[test]
fn decode_decimal_cell() {
    // scale 2, unscaled 0x01 0x00 = 256: the value 2.56.
    let cell = [0, 0, 0, 6, 0, 0, 0, 2, 1, 0];
    let (v, end) = read_cql_col(&CqlColDescr::Single(ColumnType::Decimal), &cell, 0).unwrap();
    assert_eq!(v, Value::CqlDecimal(2, 256));
    assert_eq!(end, 10);
}

#[test]
fn string_equality_by_characters() {
    assert!(cql::str_eq("KEYSPACE", "KEYSPACE"));
    assert!(!cql::str_eq("KEYSPACE", "TABLE"));
    assert!(!cql::str_eq("ab", "abc"));
    assert!(cql::str_eq("", ""));
}
