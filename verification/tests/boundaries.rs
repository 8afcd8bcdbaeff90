use bolt_proto::{Message, Value};

fn round_trips(v: Value) {
    let bytes = v.to_bytes().unwrap();
    let (back, used) = Value::from_bytes(&bytes).unwrap();
    assert_eq!(used, bytes.len());
    assert_eq!(back, v);
}

#[test]
fn string_boundaries_round_trip() {
    for len in [0_usize, 15, 16, 255, 256, 65535, 65536] {
        round_trips(Value::String("x".repeat(len)));
    }
}

#[test]
fn bytes_boundaries_round_trip() {
    for len in [0_usize, 15, 16, 255, 256, 65535, 65536] {
        round_trips(Value::Bytes(vec![7_u8; len]));
    }
}

#[test]
fn list_boundaries_round_trip() {
    for len in [0_usize, 15, 16, 255, 256, 65535, 65536] {
        let items: Vec<Value> = (0..len).map(|_| Value::Null).collect();
        round_trips(Value::List(items));
    }
}

#[test]
fn map_boundaries_round_trip() {
    for len in [0_usize, 15, 16, 255, 256, 65535, 65536] {
        let entries: Vec<(String, Value)> =
            (0..len).map(|i| (format!("k{}", i), Value::Integer(i as i64))).collect();
        round_trips(Value::Dictionary(entries));
    }
}

#[test]
fn integer_boundaries() {
    // -17 needs the marked one-byte form; -16 and 127 fit the tiny form.
    assert_eq!(Value::Integer(-17).to_bytes().unwrap()[0], 0xC8);
    assert_eq!(Value::Integer(-16).to_bytes().unwrap(), vec![0xF0]);
    assert_eq!(Value::Integer(127).to_bytes().unwrap(), vec![0x7F]);
    assert_eq!(Value::Integer(128).to_bytes().unwrap()[0], 0xC9);
    assert_eq!(Value::Integer(-32769).to_bytes().unwrap()[0], 0xCA);
    assert_eq!(Value::Integer(1_i64 << 31).to_bytes().unwrap()[0], 0xCB);
    for n in [-17_i64, -16, 127, 128, -32769, 1_i64 << 31, i64::MIN, i64::MAX] {
        round_trips(Value::Integer(n));
    }
}

#[test]
fn empty_containers_round_trip() {
    round_trips(Value::List(vec![]));
    round_trips(Value::Dictionary(vec![]));
    round_trips(Value::Bytes(vec![]));
}

#[test]
fn ack_failure_encodes_and_frames() {
    let bytes = Message::AckFailure.to_bytes().unwrap();
    assert_eq!(bytes, vec![0xB0, 0x0E]);
    let framed = Message::AckFailure.to_chunked_bytes().unwrap();
    assert_eq!(framed, vec![0x00, 0x02, 0xB0, 0x0E, 0x00, 0x00]);
}

#[test]
fn shared_signature_disambiguation() {
    // Two fields after signature 0x01: an Init; one field: a Hello.
    let init_bytes = vec![0xB2, 0x01, 0x81, 0x61, 0xA0];
    match Message::from_bytes_at(&init_bytes, 0).unwrap().0 {
        Message::Init(i) => {
            assert_eq!(i.client_name, "a");
            assert_eq!(i.auth_token, vec![]);
        }
        other => panic!("expected Init, got {:?}", other),
    }
    let hello_bytes = vec![0xB1, 0x01, 0xA0];
    match Message::from_bytes_at(&hello_bytes, 0).unwrap().0 {
        Message::Hello { metadata } => assert_eq!(metadata, vec![]),
        other => panic!("expected Hello, got {:?}", other),
    }
}

#[test]
fn message_round_trip_through_frames() {
    let msg = Message::Run {
        statement: "RETURN 1".to_string(),
        parameters: vec![("n".to_string(), Value::Integer(1))],
    };
    let stream = msg.to_chunked_bytes().unwrap();
    let (back, used) = Message::from_frames(&stream, 0).unwrap();
    assert_eq!(used, stream.len());
    assert_eq!(back, msg);
}

#[test]
fn large_message_chunk_count() {
    // A record whose encoding exceeds one chunk is split into
    // ceil(size / 16381) data chunks plus the terminator.
    let msg = Message::Record { fields: vec![Value::Bytes(vec![9_u8; 40_000])] };
    let body_len = msg.to_bytes().unwrap().len();
    let stream = msg.to_chunked_bytes().unwrap();
    let expected_chunks = (body_len + 16380) / 16381;
    let mut chunks = 0;
    let mut pos = 0;
    loop {
        let len = ((stream[pos] as usize) << 8) | stream[pos + 1] as usize;
        pos += 2 + len;
        if len == 0 {
            break;
        }
        chunks += 1;
    }
    assert_eq!(pos, stream.len());
    assert_eq!(chunks, expected_chunks);
    let (back, _) = Message::from_frames(&stream, 0).unwrap();
    assert_eq!(back, msg);
}

#[test]
fn handshake_bytes_and_negotiation() {
    let request = bolt_proto::handshake::handshake_request();
    assert_eq!(
        request,
        vec![
            0x60, 0x60, 0xB0, 0x17, 0x00, 0x00, 0x00, 0x01, 0x00, 0x00, 0x00, 0x00, 0x00, 0x00,
            0x00, 0x00, 0x00, 0x00, 0x00, 0x00,
        ]
    );
    let accepted = bolt_proto::handshake::version_of_reply(&vec![0x00, 0x00, 0x00, 0x01]);
    assert_eq!(bolt_proto::handshake::negotiate_version(accepted), Ok(1));
    let rejected = bolt_proto::handshake::version_of_reply(&vec![0x00, 0x00, 0x00, 0x00]);
    assert_eq!(
        bolt_proto::handshake::negotiate_version(rejected),
        Err(bolt_proto::Error::HandshakeRejected)
    );
}

#[test]
fn decode_errors() {
    // An unknown marker byte.
    assert_eq!(
        Value::from_bytes(&vec![0xC7]),
        Err(bolt_proto::Error::InvalidMarker(0xC7))
    );
    // A truncated integer.
    assert_eq!(Value::from_bytes(&vec![0xC9, 0x01]), Err(bolt_proto::Error::UnexpectedEof));
    // Ill-formed UTF-8 in a string payload.
    assert_eq!(
        Value::from_bytes(&vec![0x82, 0xFF, 0xFF]),
        Err(bolt_proto::Error::InvalidString)
    );
    // An unknown structure signature.
    assert_eq!(
        Value::from_bytes(&vec![0xB1, 0x99, 0xC0]),
        Err(bolt_proto::Error::InvalidSignature(0x99, 1))
    );
    // A structure field of the wrong shape: a date whose field is a string.
    assert_eq!(
        Value::from_bytes(&vec![0xB1, 0x44, 0x81, 0x61]),
        Err(bolt_proto::Error::DeserializerPanic)
    );
}

#[test]
fn message_round_trips() {
    let msgs = vec![
        Message::DiscardAll,
        Message::PullAll,
        Message::AckFailure,
        Message::Reset,
        Message::Ignored,
        Message::Goodbye,
        Message::Commit,
        Message::Rollback,
        Message::Record { fields: vec![Value::Integer(1), Value::String("x".to_string())] },
        Message::Success { metadata: vec![("ok".to_string(), Value::Boolean(true))] },
        Message::Failure { metadata: vec![("code".to_string(), Value::Integer(7))] },
        Message::Hello { metadata: vec![] },
        Message::Begin { metadata: vec![] },
        Message::Discard { metadata: vec![("n".to_string(), Value::Integer(-1))] },
        Message::Pull { metadata: vec![("n".to_string(), Value::Integer(-1))] },
        Message::RunWithMetadata {
            statement: "RETURN 1".to_string(),
            parameters: vec![],
            metadata: vec![],
        },
    ];
    for msg in msgs {
        let bytes = msg.to_bytes().unwrap();
        let (back, used) = Message::from_bytes_at(&bytes, 0).unwrap();
        assert_eq!(used, bytes.len());
        assert_eq!(back, msg);
    }
}
