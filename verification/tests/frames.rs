//! Frame-level behaviour on captured server responses, the request
//! builders' framing, and the connection's decision logic.

use cql::{
    accept_response, consistency, execute, handshake_step, opcode, options, prepare, prepared_id,
    query, read_cql_response, startup, ColumnType, Consistency, Error, Opcode, ResponseBody,
    ResponseResult, Value,
};

#[test]
fn resp_ready() {
    let v = vec![131, 0, 0, 1, 2, 0, 0, 0, 0];
    let resp = read_cql_response(v.as_slice());
    assert!(resp.is_ok())
}

#[test]
fn resp_error() {
    let v = vec![
        131, 0, 0, 0, 0, 0, 0, 0, 49, 0, 0, 36, 0, 0, 35, 67, 97, 110, 110, 111, 116, 32, 97,
        100, 100, 32, 101, 120, 105, 115, 116, 105, 110, 103, 32, 107, 101, 121, 115, 112, 97,
        99, 101, 32, 34, 114, 117, 115, 116, 34, 0, 4, 114, 117, 115, 116, 0, 0,
    ];
    let resp = v.as_slice();
    let resp = read_cql_response(resp);
    assert!(resp.is_ok())
}

#[test]
fn resp_schema_change() {
    let v = vec![
        131, 0, 0, 0, 8, 0, 0, 0, 29, 0, 0, 0, 5, 0, 7, 67, 82, 69, 65, 84, 69, 68, 0, 8, 75,
        69, 89, 83, 80, 65, 67, 69, 0, 4, 114, 117, 115, 116,
    ];
    let resp = read_cql_response(v.as_slice());
    assert!(resp.is_ok())
}

#[test]
fn resp_schema_change_table() {
    let v = vec![
        131, 0, 0, 0, 8, 0, 0, 0, 32, 0, 0, 0, 5, 0, 7, 67, 82, 69, 65, 84, 69, 68, 0, 5, 84,
        65, 66, 76, 69, 0, 4, 114, 117, 115, 116, 0, 4, 116, 101, 115, 116,
    ];
    let resp = read_cql_response(v.as_slice());
    assert!(resp.is_ok())
}

#[test]
fn resp_result_void() {
    let v = vec![131, 0, 0, 0, 8, 0, 0, 0, 4, 0, 0, 0, 1];
    let resp = read_cql_response(v.as_slice());
    assert!(resp.is_ok())
}

#[test]
fn resp_result_select() {
    let v = vec![
        131, 0, 0, 0, 8, 0, 0, 0, 59, 0, 0, 0, 2, 0, 0, 0, 1, 0, 0, 0, 2, 0, 4, 114, 117, 115,
        116, 0, 4, 116, 101, 115, 116, 0, 2, 105, 100, 0, 13, 0, 5, 118, 97, 108, 117, 101, 0,
        8, 0, 0, 0, 1, 0, 0, 0, 4, 97, 115, 100, 102, 0, 0, 0, 4, 63, 158, 4, 25,
    ];
    let resp = read_cql_response(v.as_slice());
    assert!(resp.is_ok())
}

#[test]
fn ready_header_fields() {
    let v = [131u8, 0, 0, 1, 2, 0, 0, 0, 0];
    let (resp, end) = read_cql_response(&v).unwrap();
    assert_eq!(end, 9);
    assert_eq!(resp.header.version, 131);
    assert_eq!(resp.header.flags, 0);
    assert_eq!(resp.header.stream, 1);
    assert_eq!(resp.header.opcode, Opcode::Ready);
    assert!(matches!(resp.body, ResponseBody::Ready));
}

#[test]
fn error_already_exists_fields() {
    let v = [
        131u8, 0, 0, 0, 0, 0, 0, 0, 49, 0, 0, 36, 0, 0, 35, 67, 97, 110, 110, 111, 116, 32, 97,
        100, 100, 32, 101, 120, 105, 115, 116, 105, 110, 103, 32, 107, 101, 121, 115, 112, 97,
        99, 101, 32, 34, 114, 117, 115, 116, 34, 0, 4, 114, 117, 115, 116, 0, 0,
    ];
    let (resp, end) = read_cql_response(&v).unwrap();
    assert_eq!(end, 9 + 49);
    assert_eq!(resp.header.opcode, Opcode::Error);
    match resp.body {
        ResponseBody::Error(code, msg, trailer) => {
            assert_eq!(code, 0x2400);
            assert_eq!(msg, "Cannot add existing keyspace \"rust\"");
            let (ks, name) = trailer.expect("already-exists carries its trailer");
            assert_eq!(ks, "rust");
            assert_eq!(name, "");
        },
        other => panic!("not an error body: {:?}", other),
    }
}

#[test]
fn schema_change_keyspace_fields() {
    let v = [
        131u8, 0, 0, 0, 8, 0, 0, 0, 29, 0, 0, 0, 5, 0, 7, 67, 82, 69, 65, 84, 69, 68, 0, 8, 75,
        69, 89, 83, 80, 65, 67, 69, 0, 4, 114, 117, 115, 116,
    ];
    let (resp, end) = read_cql_response(&v).unwrap();
    assert_eq!(end, 9 + 29);
    match resp.body {
        ResponseBody::Result(ResponseResult::SchemaChange(change, target, ks, name)) => {
            assert_eq!(change, "CREATED");
            assert_eq!(target, "KEYSPACE");
            assert_eq!(ks, "rust");
            assert!(name.is_none());
        },
        other => panic!("not a schema change: {:?}", other),
    }
}

#[test]
fn schema_change_table_fields() {
    let v = [
        131u8, 0, 0, 0, 8, 0, 0, 0, 32, 0, 0, 0, 5, 0, 7, 67, 82, 69, 65, 84, 69, 68, 0, 5, 84,
        65, 66, 76, 69, 0, 4, 114, 117, 115, 116, 0, 4, 116, 101, 115, 116,
    ];
    let (resp, end) = read_cql_response(&v).unwrap();
    assert_eq!(end, 9 + 32);
    match resp.body {
        ResponseBody::Result(ResponseResult::SchemaChange(change, target, ks, name)) => {
            assert_eq!(change, "CREATED");
            assert_eq!(target, "TABLE");
            assert_eq!(ks, "rust");
            assert_eq!(name.as_deref(), Some("test"));
        },
        other => panic!("not a schema change: {:?}", other),
    }
}

#[test]
fn result_void_fields() {
    let v = [131u8, 0, 0, 0, 8, 0, 0, 0, 4, 0, 0, 0, 1];
    let (resp, end) = read_cql_response(&v).unwrap();
    assert_eq!(end, 13);
    assert!(matches!(resp.body, ResponseBody::Result(ResponseResult::Void)));
}

#[test]
fn result_rows_fields() {
    let v = [
        131u8, 0, 0, 0, 8, 0, 0, 0, 59, 0, 0, 0, 2, 0, 0, 0, 1, 0, 0, 0, 2, 0, 4, 114, 117, 115,
        116, 0, 4, 116, 101, 115, 116, 0, 2, 105, 100, 0, 13, 0, 5, 118, 97, 108, 117, 101, 0,
        8, 0, 0, 0, 1, 0, 0, 0, 4, 97, 115, 100, 102, 0, 0, 0, 4, 63, 158, 4, 25,
    ];
    let (resp, end) = read_cql_response(&v).unwrap();
    assert_eq!(end, 9 + 59);
    let rows = match resp.body {
        ResponseBody::Result(ResponseResult::Rows(rows)) => rows,
        other => panic!("not a rows result: {:?}", other),
    };
    assert_eq!(rows.metadata.column_count, 2);
    assert_eq!(rows.metadata.keyspace.as_deref(), Some("rust"));
    assert_eq!(rows.metadata.table.as_deref(), Some("test"));
    assert_eq!(rows.metadata.row_metadata[0].col_name, "id");
    assert_eq!(rows.metadata.row_metadata[1].col_name, "value");
    assert_eq!(rows.rows.len(), 1);
    let row = &rows.rows[0];
    assert_eq!(row.cols.len(), 2);
    assert_eq!(row.cols[0], Value::CqlVarChar("asdf".to_owned()));
    match row.cols[1] {
        Value::CqlFloat(bits) => {
            let f = f32::from_bits(bits);
            assert!((f - 1.2345).abs() < 1e-6);
        },
        ref other => panic!("not a float cell: {:?}", other),
    }

    // Column lookup goes by name to the first match.
    assert_eq!(row.get_column("id"), Some(Value::CqlVarChar("asdf".to_owned())));
    assert!(row.get_column("missing").is_none());
}

#[test]
fn response_truncated_is_eof() {
    let v = [131u8, 0, 0, 0, 8, 0, 0, 0, 59, 0, 0, 0, 2];
    assert_eq!(read_cql_response(&v).unwrap_err(), Error::UnexpectedEOF);
    let short_header = [131u8, 0, 0];
    assert_eq!(read_cql_response(&short_header).unwrap_err(), Error::UnexpectedEOF);
}

#[test]
fn response_unknown_result_kind_is_protocol() {
    let v = [131u8, 0, 0, 0, 8, 0, 0, 0, 4, 0, 0, 0, 9];
    assert_eq!(read_cql_response(&v).unwrap_err(), Error::Protocol);
}

#[test]
fn response_event_opcode_is_protocol() {
    let v = [131u8, 0, 0, 0, 0x0C, 0, 0, 0, 0];
    assert_eq!(read_cql_response(&v).unwrap_err(), Error::Protocol);
}

#[test]
fn response_undefined_opcode_is_protocol() {
    // The body bytes would parse as an ERROR body, but the opcode byte 0x55
    // names no opcode: the frame must not pass as a server error.
    let v = [131u8, 0, 0, 0, 0x55, 0, 0, 0, 8, 0, 0, 36, 0, 0, 2, 110, 111];
    assert_eq!(read_cql_response(&v).unwrap_err(), Error::Protocol);
    assert_eq!(opcode(0x55), Opcode::Unknown);
    assert_ne!(opcode(0x55), opcode(0x00));
}

fn length_field(frame: &[u8]) -> usize {
    ((frame[5] as usize) << 24) + ((frame[6] as usize) << 16) + ((frame[7] as usize) << 8)
        + (frame[8] as usize)
}

#[test]
fn request_framing_lengths() {
    let s = startup().unwrap();
    assert_eq!(s.len(), 9 + length_field(&s));
    let o = options().unwrap();
    assert_eq!(o.len(), 9 + length_field(&o));
    assert_eq!(length_field(&o), 0);
    let q = query(0, "select * from rust.test", Consistency::One, &Vec::new()).unwrap();
    assert_eq!(q.len(), 9 + length_field(&q));
    let p = prepare(0, "select * from rust.test where id = ?").unwrap();
    assert_eq!(p.len(), 9 + length_field(&p));
    let e = execute(0, &vec![0xAB, 0xCD], Consistency::One, &Vec::new()).unwrap();
    assert_eq!(e.len(), 9 + length_field(&e));
}

#[test]
fn startup_frame_bytes() {
    let s = startup().unwrap();
    let mut expect: Vec<u8> = vec![3, 0, 0, 1, 1, 0, 0, 0, 22];
    expect.extend_from_slice(&[0, 1]);
    expect.extend_from_slice(&[0, 11]);
    expect.extend_from_slice(b"CQL_VERSION");
    expect.extend_from_slice(&[0, 5]);
    expect.extend_from_slice(b"3.0.0");
    assert_eq!(s, expect);
}

#[test]
fn query_frame_bytes() {
    let params = vec![Value::CqlInt(7)];
    let q = query(2, "q", Consistency::Quorum, &params).unwrap();
    let mut expect: Vec<u8> = vec![3, 0, 0, 2, 7, 0, 0, 0, 18];
    expect.extend_from_slice(&[0, 0, 0, 1]);
    expect.extend_from_slice(b"q");
    expect.extend_from_slice(&[0, 4]); // consistency Quorum
    expect.extend_from_slice(&[0x01]); // flags: values follow
    expect.extend_from_slice(&[0, 1]); // one value
    expect.extend_from_slice(&[0, 0, 0, 4, 0, 0, 0, 7]);
    assert_eq!(q, expect);
}

#[test]
fn query_rejects_unencodable_parameter() {
    let params = vec![Value::CqlCounter(1)];
    assert_eq!(
        query(0, "q", Consistency::One, &params),
        Err(Error::Unimplemented)
    );
}

#[test]
fn handshake_decisions() {
    assert!(handshake_step(&ResponseBody::Ready).is_ok());
    assert_eq!(
        handshake_step(&ResponseBody::Auth("org.Authenticator".to_owned())),
        Err(Error::Unimplemented)
    );
    assert_eq!(
        handshake_step(&ResponseBody::Result(ResponseResult::Void)),
        Err(Error::Protocol)
    );
}

#[test]
fn response_acceptance() {
    let v = [131u8, 0, 0, 0, 8, 0, 0, 0, 4, 0, 0, 0, 1];
    let (resp, _) = read_cql_response(&v).unwrap();
    assert!(accept_response(&resp, 0).is_ok());
    assert_eq!(accept_response(&resp, 1), Err(Error::Protocol));

    let ready = [131u8, 0, 0, 1, 2, 0, 0, 0, 0];
    let (ready_resp, _) = read_cql_response(&ready).unwrap();
    assert_eq!(accept_response(&ready_resp, 1), Err(Error::Protocol));
}

#[test]
fn prepared_id_extraction() {
    // RESULT / Prepared: id [0xAB, 0xCD], empty metadata (no global spec).
    let v = [
        131u8, 0, 0, 0, 8, 0, 0, 0, 16, 0, 0, 0, 4, 0, 2, 0xAB, 0xCD, 0, 0, 0, 0, 0, 0, 0, 0,
    ];
    let (resp, end) = read_cql_response(&v).unwrap();
    assert_eq!(end, 25);
    assert_eq!(prepared_id(resp), Ok(vec![0xAB, 0xCD]));

    let void = [131u8, 0, 0, 0, 8, 0, 0, 0, 4, 0, 0, 0, 1];
    let (void_resp, _) = read_cql_response(&void).unwrap();
    assert_eq!(prepared_id(void_resp), Err(Error::Protocol));
}

#[test]
fn conversion_tables() {
    assert_eq!(consistency(1), Consistency::One);
    assert_eq!(consistency(99), Consistency::Unknown);
    assert_eq!(cql::Consistency(4), Consistency::Quorum);
    assert_eq!(opcode(0x08), Opcode::Result);
    assert_eq!(opcode(0x55), Opcode::Unknown);
    assert_eq!(cql::column_type(0x000D), ColumnType::VarChar);
    assert_eq!(cql::column_type(0x0021), ColumnType::MapType);
    assert_eq!(cql::column_type(0x4444), ColumnType::Unknown);
}

#[test]
fn supported_response_multimap() {
    // SUPPORTED with one option: "CQL_VERSION" -> ["3.0.0"].
    let mut body: Vec<u8> = vec![0, 1];
    body.extend_from_slice(&[0, 11]);
    body.extend_from_slice(b"CQL_VERSION");
    body.extend_from_slice(&[0, 1]);
    body.extend_from_slice(&[0, 5]);
    body.extend_from_slice(b"3.0.0");
    let mut v: Vec<u8> = vec![131, 0, 0, 1, 6, 0, 0, 0, body.len() as u8];
    v.extend_from_slice(&body);
    let (resp, _) = read_cql_response(v.as_slice()).unwrap();
    match resp.body {
        ResponseBody::Supported(mm) => {
            assert_eq!(mm.len(), 1);
            assert_eq!(mm[0].0, "CQL_VERSION");
            assert_eq!(mm[0].1, vec!["3.0.0".to_owned()]);
        },
        other => panic!("not a supported body: {:?}", other),
    }
}

#[test]
fn trailing_body_bytes_tolerated() {
    // A READY frame whose header announces one stray body byte: the body
    // decoder reads nothing, the frame still ends after the announced length.
    let v = [131u8, 0, 0, 1, 2, 0, 0, 0, 1, 99];
    let (resp, end) = read_cql_response(&v).unwrap();
    assert!(matches!(resp.body, ResponseBody::Ready));
    assert_eq!(end, 10);
}

#[test]
fn frame_header_construction() {
    let h = cql::FrameHeader::new(1, Opcode::Startup);
    assert_eq!(h.version, cql::CQL_VERSION);
    assert_eq!(h.flags, 0);
    assert_eq!(h.stream, 1);
    assert_eq!(h.opcode, Opcode::Startup);
}
