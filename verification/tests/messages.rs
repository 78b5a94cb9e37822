use postgres_protocol::error::PgError;
use postgres_protocol::message::backend::{Message, ParseResult};
use postgres_protocol::message::frontend;
use postgres_protocol::message::frontend::Message as FrontendMessage;
use postgres_protocol::message::owned;

fn parse_complete(buf: &[u8]) -> (Message<'_>, usize) {
    match Message::parse(buf).unwrap() {
        ParseResult::Complete { message, consumed } => (message, consumed),
        ParseResult::Incomplete { .. } => panic!("unexpected incomplete parse"),
    }
}

#[test]
fn ready_for_query() {
    let buf = [0x5a, 0x00, 0x00, 0x00, 0x05, 0x49];
    let (message, consumed) = parse_complete(&buf);
    assert_eq!(consumed, 6);
    match message {
        Message::ReadyForQuery(body) => assert_eq!(body.status(), b'I'),
        _ => panic!("wrong message kind"),
    }
}

#[test]
fn backend_key_data() {
    let buf = [
        0x4b, 0x00, 0x00, 0x00, 0x0c, 0x00, 0x00, 0x00, 0x2a, 0x00, 0x00, 0x04, 0xd2,
    ];
    let (message, consumed) = parse_complete(&buf);
    assert_eq!(consumed, 13);
    match message {
        Message::BackendKeyData(body) => {
            assert_eq!(body.process_id(), 42);
            assert_eq!(body.secret_key(), 1234);
        },
        _ => panic!("wrong message kind"),
    }
}

#[test]
fn data_row() {
    let buf = [
        0x44, 0x00, 0x00, 0x00, 0x0f, 0x00, 0x02, 0xff, 0xff, 0xff, 0xff, 0x00, 0x00, 0x00,
        0x01, 0x41,
    ];
    let (message, consumed) = parse_complete(&buf);
    assert_eq!(consumed, 16);
    match message {
        Message::DataRow(body) => {
            let mut values = body.values();
            assert_eq!(values.next().unwrap().unwrap(), None);
            assert_eq!(values.next().unwrap().unwrap(), Some(&b"A"[..]));
            assert!(values.next().unwrap().is_none());
        },
        _ => panic!("wrong message kind"),
    }
}

#[test]
fn incomplete_without_header() {
    match Message::parse(&[0x5a, 0x00]).unwrap() {
        ParseResult::Incomplete { required_size } => assert_eq!(required_size, None),
        ParseResult::Complete { .. } => panic!("unexpected complete parse"),
    }
}

#[test]
fn incomplete_with_header() {
    // A ReadyForQuery frame is 6 bytes; give only 5.
    match Message::parse(&[0x5a, 0x00, 0x00, 0x00, 0x05]).unwrap() {
        ParseResult::Incomplete { required_size } => assert_eq!(required_size, Some(6)),
        ParseResult::Complete { .. } => panic!("unexpected complete parse"),
    }
}

#[test]
fn every_proper_prefix_is_incomplete() {
    let buf = [
        0x4b, 0x00, 0x00, 0x00, 0x0c, 0x00, 0x00, 0x00, 0x2a, 0x00, 0x00, 0x04, 0xd2,
    ];
    for k in 0..buf.len() {
        match Message::parse(&buf[..k]).unwrap() {
            ParseResult::Incomplete { .. } => {},
            ParseResult::Complete { .. } => panic!("prefix of length {} parsed", k),
        }
    }
}

#[test]
fn advance_is_stateless() {
    // Two messages back to back: parsing after consuming the first frame
    // gives the same result as parsing the second frame alone.
    let mut stream = vec![0x5a, 0x00, 0x00, 0x00, 0x05, 0x49];
    let second = [
        0x4b, 0x00, 0x00, 0x00, 0x0c, 0x00, 0x00, 0x00, 0x2a, 0x00, 0x00, 0x04, 0xd2,
    ];
    stream.extend_from_slice(&second);
    let (_, consumed) = parse_complete(&stream);
    assert_eq!(consumed, 6);
    let (message, consumed2) = parse_complete(&stream[consumed..]);
    assert_eq!(consumed2, 13);
    match message {
        Message::BackendKeyData(body) => {
            assert_eq!(body.process_id(), 42);
            assert_eq!(body.secret_key(), 1234);
        },
        _ => panic!("wrong message kind"),
    }
}

#[test]
fn unknown_tag_is_rejected() {
    let buf = [0xee, 0x00, 0x00, 0x00, 0x04];
    assert_eq!(Message::parse(&buf).err().unwrap(), PgError::UnknownTag(0xee));
}

#[test]
fn unknown_auth_subcode_is_rejected() {
    let buf = [b'R', 0x00, 0x00, 0x00, 0x08, 0x00, 0x00, 0x00, 0x01];
    assert_eq!(Message::parse(&buf).err().unwrap(), PgError::UnknownAuthTag(1));
}

#[test]
fn auth_md5_salt() {
    let buf = [
        b'R', 0x00, 0x00, 0x00, 0x0c, 0x00, 0x00, 0x00, 0x05, 0x2a, 0x3d, 0x8f, 0xe0,
    ];
    let (message, _) = parse_complete(&buf);
    match message {
        Message::AuthenticationMd5Password(body) => {
            assert_eq!(body.salt(), [0x2a, 0x3d, 0x8f, 0xe0]);
        },
        _ => panic!("wrong message kind"),
    }
}

#[test]
fn trailing_bytes_are_rejected() {
    // ReadyForQuery with a 2-byte body.
    let buf = [0x5a, 0x00, 0x00, 0x00, 0x06, 0x49, 0x00];
    assert_eq!(Message::parse(&buf).err().unwrap(), PgError::InvalidMessageLength);
}

#[test]
fn undersized_frame_is_rejected() {
    // The declared length 3 cannot even cover the length field itself.
    let buf = [0x5a, 0x00, 0x00, 0x00, 0x03, 0x49];
    assert_eq!(Message::parse(&buf).err().unwrap(), PgError::InvalidMessageLength);
}

#[test]
fn command_complete_message() {
    let mut buf = vec![b'C', 0, 0, 0, 13];
    buf.extend_from_slice(b"SELECT 1");
    buf.push(0);
    let (message, consumed) = parse_complete(&buf);
    assert_eq!(consumed, 14);
    match message {
        Message::CommandComplete(body) => assert_eq!(body.tag(), "SELECT 1"),
        _ => panic!("wrong message kind"),
    }
}

#[test]
fn unterminated_cstring_is_rejected() {
    let mut buf = vec![b'C', 0, 0, 0, 12];
    buf.extend_from_slice(b"SELECT 1");
    assert_eq!(Message::parse(&buf).err().unwrap(), PgError::UnexpectedEof);
}

#[test]
fn parameter_status_message() {
    let mut buf = vec![b'S', 0, 0, 0, 0];
    buf.extend_from_slice(b"client_encoding\0UTF8\0");
    let n = (buf.len() - 1) as u8;
    buf[4] = n;
    let (message, _) = parse_complete(&buf);
    match message {
        Message::ParameterStatus(body) => {
            assert_eq!(body.name(), "client_encoding");
            assert_eq!(body.value(), "UTF8");
        },
        _ => panic!("wrong message kind"),
    }
}

#[test]
fn notification_response_message() {
    let mut buf = vec![b'A', 0, 0, 0, 0, 0, 0, 0, 9];
    buf.extend_from_slice(b"chan\0payload\0");
    let n = (buf.len() - 1) as u8;
    buf[4] = n;
    let (message, _) = parse_complete(&buf);
    match message {
        Message::NotificationResponse(body) => {
            assert_eq!(body.process_id(), 9);
            assert_eq!(body.channel(), "chan");
            assert_eq!(body.message(), "payload");
        },
        _ => panic!("wrong message kind"),
    }
}

#[test]
fn row_description_fields() {
    let mut buf = vec![b'T', 0, 0, 0, 0, 0, 1];
    buf.extend_from_slice(b"id\0");
    buf.extend_from_slice(&[0, 0, 0, 5]); // table oid
    buf.extend_from_slice(&[0, 1]); // column id
    buf.extend_from_slice(&[0, 0, 0, 23]); // type oid
    buf.extend_from_slice(&[0, 4]); // type size
    buf.extend_from_slice(&[0xff, 0xff, 0xff, 0xff]); // type modifier
    buf.extend_from_slice(&[0, 1]); // format
    let n = (buf.len() - 1) as u8;
    buf[4] = n;
    let (message, _) = parse_complete(&buf);
    match message {
        Message::RowDescription(body) => {
            let mut fields = body.fields();
            let field = fields.next().unwrap().unwrap();
            assert_eq!(field.name(), "id");
            assert_eq!(field.table_oid(), 5);
            assert_eq!(field.column_id(), 1);
            assert_eq!(field.type_oid(), 23);
            assert_eq!(field.type_size(), 4);
            assert_eq!(field.type_modifier(), -1);
            assert_eq!(field.format(), 1);
            assert!(fields.next().unwrap().is_none());
        },
        _ => panic!("wrong message kind"),
    }
}

#[test]
fn copy_in_response_formats() {
    let buf = [b'G', 0, 0, 0, 11, 1, 0, 2, 0, 0, 0, 1];
    let (message, _) = parse_complete(&buf);
    match message {
        Message::CopyInResponse(body) => {
            assert_eq!(body.format(), 1);
            let mut formats = body.column_formats();
            assert_eq!(formats.next().unwrap().unwrap(), 0);
            assert_eq!(formats.next().unwrap().unwrap(), 1);
            assert!(formats.next().unwrap().is_none());
        },
        _ => panic!("wrong message kind"),
    }
}

#[test]
fn parameter_description_oids() {
    let buf = [b't', 0, 0, 0, 10, 0, 1, 0, 0, 0, 25];
    let (message, _) = parse_complete(&buf);
    match message {
        Message::ParameterDescription(body) => {
            let mut oids = body.parameters();
            assert_eq!(oids.next().unwrap().unwrap(), 25);
            assert!(oids.next().unwrap().is_none());
        },
        _ => panic!("wrong message kind"),
    }
}

#[test]
fn error_response_fields() {
    let mut buf = vec![b'E', 0, 0, 0, 0];
    buf.push(b'S');
    buf.extend_from_slice(b"ERROR\0");
    buf.push(b'M');
    buf.extend_from_slice(b"broken\0");
    buf.push(0);
    let n = (buf.len() - 1) as u8;
    buf[4] = n;
    let (message, _) = parse_complete(&buf);
    match message {
        Message::ErrorResponse(body) => {
            let mut fields = body.fields();
            let f1 = fields.next().unwrap().unwrap();
            assert_eq!(f1.type_(), b'S');
            assert_eq!(f1.value(), "ERROR");
            let f2 = fields.next().unwrap().unwrap();
            assert_eq!(f2.type_(), b'M');
            assert_eq!(f2.value(), "broken");
            assert!(fields.next().unwrap().is_none());
        },
        _ => panic!("wrong message kind"),
    }
}

#[test]
fn query_wire_bytes() {
    let mut buf = vec![];
    frontend::Query { query: "SELECT 1" }.write(&mut buf).unwrap();
    let mut expected = vec![b'Q', 0, 0, 0, 13];
    expected.extend_from_slice(b"SELECT 1");
    expected.push(0);
    assert_eq!(buf, expected);
}

#[test]
fn query_rejects_embedded_nul() {
    let mut buf = vec![];
    assert_eq!(
        frontend::Query { query: "SELECT\0 1" }.write(&mut buf).err().unwrap(),
        PgError::EmbeddedNul
    );
}

#[test]
fn password_message_wire_bytes() {
    let mut buf = vec![];
    frontend::PasswordMessage { password: "hunter" }.write(&mut buf).unwrap();
    let mut expected = vec![b'p', 0, 0, 0, 11];
    expected.extend_from_slice(b"hunter");
    expected.push(0);
    assert_eq!(buf, expected);
}

#[test]
fn terminate_and_sync_and_flush_and_copy_done_wire_bytes() {
    let mut buf = vec![];
    frontend::Terminate.write(&mut buf).unwrap();
    frontend::Sync.write(&mut buf).unwrap();
    frontend::Flush.write(&mut buf).unwrap();
    frontend::copy_done(&mut buf);
    assert_eq!(
        buf,
        [b'X', 0, 0, 0, 4, b'S', 0, 0, 0, 4, b'H', 0, 0, 0, 4, b'c', 0, 0, 0, 4]
    );
}

#[test]
fn ssl_request_wire_bytes() {
    let mut buf = vec![];
    frontend::SslRequest.write(&mut buf).unwrap();
    assert_eq!(buf, [0, 0, 0, 8, 0x04, 0xd2, 0x16, 0x2f]);
}

#[test]
fn cancel_request_wire_bytes() {
    let mut buf = vec![];
    frontend::cancel_request(42, 1234, &mut buf);
    assert_eq!(
        buf,
        [0, 0, 0, 16, 0x04, 0xd2, 0x16, 0x2e, 0, 0, 0, 42, 0, 0, 0x04, 0xd2]
    );
}

#[test]
fn startup_message_wire_bytes() {
    let params = vec![("user".to_string(), "alice".to_string())];
    let mut buf = vec![];
    frontend::StartupMessage { parameters: &params }.write(&mut buf).unwrap();
    let mut expected = vec![0, 0, 0, 20, 0x00, 0x03, 0x00, 0x00];
    expected.extend_from_slice(b"user\0alice\0\0");
    assert_eq!(buf, expected);
}

#[test]
fn execute_wire_bytes() {
    let mut buf = vec![];
    frontend::Execute { portal: "p", max_rows: 0 }.write(&mut buf).unwrap();
    assert_eq!(buf, [b'E', 0, 0, 0, 10, b'p', 0, 0, 0, 0, 0]);
}

#[test]
fn describe_and_close_wire_bytes() {
    let mut buf = vec![];
    frontend::Describe { variant: b'S', name: "st" }.write(&mut buf).unwrap();
    assert_eq!(buf, [b'D', 0, 0, 0, 8, b'S', b's', b't', 0]);

    let mut buf = vec![];
    frontend::close(b'P', "po", &mut buf).unwrap();
    assert_eq!(buf, [b'C', 0, 0, 0, 8, b'P', b'p', b'o', 0]);
}

#[test]
fn copy_fail_wire_bytes() {
    let mut buf = vec![];
    frontend::copy_fail("no", &mut buf).unwrap();
    assert_eq!(buf, [b'f', 0, 0, 0, 7, b'n', b'o', 0]);
}

#[test]
fn parse_message_wire_bytes() {
    let mut buf = vec![];
    frontend::Parse { name: "s", query: "SELECT $1", param_types: &[23] }
        .write(&mut buf)
        .unwrap();
    let mut expected = vec![b'P', 0, 0, 0, 22];
    expected.extend_from_slice(b"s\0SELECT $1\0");
    expected.extend_from_slice(&[0, 1, 0, 0, 0, 23]);
    assert_eq!(buf, expected);
}

#[test]
fn bind_wire_bytes() {
    let values: Vec<Option<Vec<u8>>> = vec![Some(vec![0x2a]), None];
    let mut buf = vec![];
    frontend::bind("p", "s", &[1], &values, &[0], &mut buf).unwrap();
    let mut expected = vec![b'B', 0, 0, 0, 27];
    expected.extend_from_slice(b"p\0s\0");
    expected.extend_from_slice(&[0, 1, 0, 1]); // one format: 1
    expected.extend_from_slice(&[0, 2]); // two values
    expected.extend_from_slice(&[0, 0, 0, 1, 0x2a]); // value 1
    expected.extend_from_slice(&[0xff, 0xff, 0xff, 0xff]); // value 2: NULL
    expected.extend_from_slice(&[0, 1, 0, 0]); // one result format: 0
    assert_eq!(buf, expected);
}

#[test]
fn bind_rejects_oversized_count() {
    let formats = vec![0i16; 0x8000];
    let values: Vec<Option<Vec<u8>>> = vec![];
    let mut buf = vec![];
    match frontend::bind("", "", &formats, &values, &[], &mut buf) {
        Err(frontend::BindError::Serialization(e)) => assert_eq!(e, PgError::ValueTooLarge),
        _ => panic!("expected a serialization error"),
    }
}

#[test]
fn copy_data_round_trip_through_parser() {
    let mut buf = vec![];
    frontend::CopyData { data: b"payload" }.write(&mut buf).unwrap();
    let (message, consumed) = parse_complete(&buf);
    assert_eq!(consumed, buf.len());
    match message {
        Message::CopyData(body) => assert_eq!(body.data(), b"payload"),
        _ => panic!("wrong message kind"),
    }
}

#[test]
fn copy_done_round_trip_through_parser() {
    let mut buf = vec![];
    frontend::copy_done(&mut buf);
    let (message, consumed) = parse_complete(&buf);
    assert_eq!(consumed, 5);
    assert!(matches!(message, Message::CopyDone));
}

#[test]
fn owned_data_row() {
    let buf = [
        0x44, 0x00, 0x00, 0x00, 0x0f, 0x00, 0x02, 0xff, 0xff, 0xff, 0xff, 0x00, 0x00, 0x00,
        0x01, 0x41,
    ];
    match owned::Message::parse(&buf).unwrap() {
        owned::ParseResult::Complete { message, consumed } => {
            assert_eq!(consumed, 16);
            match message {
                owned::Message::DataRow { row } => {
                    assert_eq!(row, vec![None, Some(b"A".to_vec())]);
                },
                _ => panic!("wrong message kind"),
            }
        },
        owned::ParseResult::Incomplete { .. } => panic!("unexpected incomplete parse"),
    }
}

#[test]
fn owned_error_response() {
    let mut buf = vec![b'E', 0, 0, 0, 0];
    buf.push(b'M');
    buf.extend_from_slice(b"broken\0");
    buf.push(0);
    let n = (buf.len() - 1) as u8;
    buf[4] = n;
    match owned::Message::parse(&buf).unwrap() {
        owned::ParseResult::Complete { message, .. } => match message {
            owned::Message::ErrorResponse { fields } => {
                assert_eq!(fields, vec![(b'M', "broken".to_string())]);
            },
            _ => panic!("wrong message kind"),
        },
        owned::ParseResult::Incomplete { .. } => panic!("unexpected incomplete parse"),
    }
}

#[test]
fn owned_row_description() {
    let mut buf = vec![b'T', 0, 0, 0, 0, 0, 1];
    buf.extend_from_slice(b"id\0");
    buf.extend_from_slice(&[0, 0, 0, 5, 0, 1, 0, 0, 0, 23, 0, 4, 0xff, 0xff, 0xff, 0xff, 0, 0]);
    let n = (buf.len() - 1) as u8;
    buf[4] = n;
    match owned::Message::parse(&buf).unwrap() {
        owned::ParseResult::Complete { message, .. } => match message {
            owned::Message::RowDescription { descriptions } => {
                assert_eq!(descriptions.len(), 1);
                assert_eq!(descriptions[0].name, "id");
                assert_eq!(descriptions[0].table_oid, 5);
                assert_eq!(descriptions[0].column_id, 1);
                assert_eq!(descriptions[0].type_oid, 23);
                assert_eq!(descriptions[0].type_size, 4);
                assert_eq!(descriptions[0].type_modifier, -1);
                assert_eq!(descriptions[0].format, 0);
            },
            _ => panic!("wrong message kind"),
        },
        owned::ParseResult::Incomplete { .. } => panic!("unexpected incomplete parse"),
    }
}
