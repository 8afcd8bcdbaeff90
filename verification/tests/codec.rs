use bolt_proto::{Message, Value};

fn round_trip(v: Value) -> Value {
    let bytes = v.to_bytes().unwrap();
    let (back, used) = Value::from_bytes(&bytes).unwrap();
    assert_eq!(used, bytes.len());
    back
}

#[test]
fn null_from_bytes() {
    let bytes = Value::Null.to_bytes().unwrap();
    assert_eq!(bytes, vec![0xC0]);
    assert_eq!(Value::from_bytes(&bytes).unwrap().0, Value::Null);
}

#[test]
fn boolean_from_bytes() {
    let true_bytes = Value::Boolean(true).to_bytes().unwrap();
    let false_bytes = Value::Boolean(false).to_bytes().unwrap();
    assert_eq!(true_bytes, vec![0xC3]);
    assert_eq!(false_bytes, vec![0xC2]);
    assert_eq!(Value::from_bytes(&true_bytes).unwrap().0, Value::Boolean(true));
    assert_eq!(Value::from_bytes(&false_bytes).unwrap().0, Value::Boolean(false));
}

#[test]
fn integer_from_bytes() {
    for n in [110_i64, -50, 8000, -18621, -1_000_000_000, 9_000_000_000_000_000_000] {
        assert_eq!(round_trip(Value::Integer(n)), Value::Integer(n));
    }
}

#[test]
fn float_from_bytes() {
    for f in [f64::MIN_POSITIVE, f64::MAX, std::f64::consts::E, std::f64::consts::PI] {
        let v = Value::Float(f.to_bits());
        let back = round_trip(Value::Float(f.to_bits()));
        assert_eq!(back, v);
        match back {
            Value::Float(bits) => assert_eq!(f64::from_bits(bits), f),
            _ => panic!("expected a float"),
        }
    }
}

#[test]
fn byte_array_from_bytes() {
    for arr in [Vec::<u8>::new(), vec![1_u8; 100], vec![99_u8; 1000], vec![1_u8; 100_000]] {
        assert_eq!(round_trip(Value::Bytes(arr.clone())), Value::Bytes(arr));
    }
}

#[test]
fn string_from_bytes() {
    for reps in [1_usize, 10, 1000, 100_000] {
        let s = "string".repeat(reps);
        assert_eq!(round_trip(Value::String(s.clone())), Value::String(s));
    }
}

#[test]
fn list_from_bytes() {
    let empty = Value::List(vec![]);
    assert_eq!(round_trip(Value::List(vec![])), empty);
    let tiny = || (0..10).map(|_| Value::Integer(100_000_000_000)).collect::<Vec<Value>>();
    assert_eq!(round_trip(Value::List(tiny())), Value::List(tiny()));
    let small = || (0..100).map(|_| Value::String("item".to_string())).collect::<Vec<Value>>();
    assert_eq!(round_trip(Value::List(small())), Value::List(small()));
    let medium = || (0..1000).map(|_| Value::Boolean(false)).collect::<Vec<Value>>();
    assert_eq!(round_trip(Value::List(medium())), Value::List(medium()));
}

#[test]
fn map_from_bytes() {
    let empty = Value::Dictionary(vec![]);
    assert_eq!(round_trip(Value::Dictionary(vec![])), empty);
    let tiny = || vec![("a".to_string(), Value::Integer(1))];
    assert_eq!(round_trip(Value::Dictionary(tiny())), Value::Dictionary(tiny()));
    let keys = ["a", "b", "c", "d", "e", "f", "g", "h", "i", "j", "k", "l", "m", "n", "o", "p"];
    let vals = [1_i64, 1, 3, 4, 5, 6, 7, 8, 9, 0, 1, 2, 3, 4, 5, 6];
    let small = || keys
        .iter()
        .zip(vals.iter())
        .map(|(k, v)| (k.to_string(), Value::Integer(*v)))
        .collect::<Vec<(String, Value)>>();
    assert_eq!(round_trip(Value::Dictionary(small())), Value::Dictionary(small()));
}

fn get_node() -> bolt_proto::Node {
    bolt_proto::Node {
        id: 24,
        labels: vec!["TestNode".to_string()],
        properties: vec![
            ("key1".to_string(), Value::Integer(-1)),
            ("key2".to_string(), Value::Integer(1)),
        ],
    }
}

fn get_rel() -> bolt_proto::Relationship {
    bolt_proto::Relationship {
        id: 24,
        start_node_id: 32,
        end_node_id: 128,
        rel_type: "TestRel".to_string(),
        properties: vec![
            ("key1".to_string(), Value::Integer(-2)),
            ("key2".to_string(), Value::Integer(2)),
        ],
    }
}

fn get_unbound_rel() -> bolt_proto::UnboundRelationship {
    bolt_proto::UnboundRelationship {
        id: 128,
        rel_type: "TestRel".to_string(),
        properties: vec![
            ("key1".to_string(), Value::Integer(-2)),
            ("key2".to_string(), Value::Integer(2)),
        ],
    }
}

#[test]
fn node_from_bytes() {
    assert_eq!(round_trip(Value::Node(get_node())), Value::Node(get_node()));
}

#[test]
fn relationship_from_bytes() {
    assert_eq!(round_trip(Value::Relationship(get_rel())), Value::Relationship(get_rel()));
}

#[test]
fn unbound_relationship_from_bytes() {
    assert_eq!(
        round_trip(Value::UnboundRelationship(get_unbound_rel())),
        Value::UnboundRelationship(get_unbound_rel())
    );
}

#[test]
fn path_from_bytes() {
    let path = || bolt_proto::Path {
        nodes: vec![get_node()],
        relationships: vec![get_unbound_rel()],
        sequence: vec![100],
    };
    assert_eq!(round_trip(Value::Path(path())), Value::Path(path()));
}

#[test]
fn date_from_bytes() {
    // 2020-12-25 as days since the Unix epoch.
    let christmas = Value::Date(18621);
    assert_eq!(round_trip(Value::Date(18621)), christmas);
}

#[test]
fn time_from_bytes() {
    let midnight_utc = Value::Time(0, 0);
    assert_eq!(round_trip(Value::Time(0, 0)), midnight_utc);
    // 16:04:35.235 at UTC-8, as nanoseconds since midnight and offset seconds.
    let nanos: i64 = ((16 * 3600 + 4 * 60 + 35) * 1_000_000_000) + 235_000_000;
    let about_four_pm_pacific = Value::Time(nanos, -8 * 3600);
    assert_eq!(round_trip(Value::Time(nanos, -8 * 3600)), about_four_pm_pacific);
}

#[test]
fn try_from_bytes() {
    // An AckFailure structure has no fields: just its header.
    let bytes = vec![0xB0, 0x0E];
    let ack_failure = Message::from_bytes_at(&bytes, 0);
    assert!(ack_failure.is_ok());
    assert_eq!(ack_failure.unwrap().0, Message::AckFailure);
}

#[test]
fn is_valid() {
    let msg = Message::Init(bolt_proto::Init {
        client_name: "MyClient/1.0".to_string(),
        auth_token: vec![("scheme".to_string(), Value::String("basic".to_string()))],
    });
    assert_eq!(
        msg.to_bytes().unwrap(),
        vec![
            0xB2, 0x01, 0x8C, 0x4D, 0x79, 0x43, 0x6C, 0x69, 0x65, 0x6E, 0x74, 0x2F, 0x31, 0x2E,
            0x30, 0xA1, 0x86, 0x73, 0x63, 0x68, 0x65, 0x6D, 0x65, 0x85, 0x62, 0x61, 0x73, 0x69,
            0x63,
        ]
    );
}
