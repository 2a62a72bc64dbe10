use reswarm_dispatch::msg::Msg;
use reswarm_dispatch::serializer::{MsgPackSerializer, SerializerError, SerializerImpl};
use reswarm_dispatch::value::Value;

fn s(ser: &MsgPackSerializer, m: &Msg) -> Vec<u8> {
    ser.pack(m).expect("packing a small message succeeds")
}

#[test]
fn round_trip_hello() {
    let ser = MsgPackSerializer {};
    let m = Msg::Hello { realm: b"realm1".to_vec() };
    let bytes = s(&ser, &m);
    assert_eq!(ser.unpack(&bytes), Ok(m));
}

#[test]
fn round_trip_welcome_abort() {
    let ser = MsgPackSerializer {};
    for m in [
        Msg::Welcome { session_id: 9007199254740993 },
        Msg::Abort { reason: b"wamp.error.no_such_realm".to_vec() },
    ] {
        let bytes = s(&ser, &m);
        assert_eq!(ser.unpack(&bytes), Ok(m));
    }
}

#[test]
fn round_trip_subscription_lifecycle_messages() {
    let ser = MsgPackSerializer {};
    for m in [
        Msg::Subscribe { request_id: 1, topic: b"reswarm.containers.build".to_vec() },
        Msg::Subscribed { request_id: 1, subscription_id: 77 },
        Msg::Unsubscribe { request_id: 2, subscription_id: 77 },
        Msg::Unsubscribed { request_id: 2 },
        Msg::ErrorReply { request_id: 3, reason: b"wamp.error.not_authorized".to_vec() },
    ] {
        let bytes = s(&ser, &m);
        assert_eq!(ser.unpack(&bytes), Ok(m));
    }
}

fn sample_args() -> Vec<Value> {
    vec![
        Value::Text(b"x".to_vec()),
        Value::Int(42),
        Value::Bool(true),
        Value::List(vec![Value::Int(1), Value::Text(b"nested".to_vec())]),
    ]
}

fn sample_kwargs() -> Vec<(Vec<u8>, Value)> {
    vec![
        (b"k".to_vec(), Value::Text(b"v".to_vec())),
        (
            b"opts".to_vec(),
            Value::Dict(vec![(b"deep".to_vec(), Value::Bool(false))]),
        ),
    ]
}

#[test]
fn round_trip_payload_messages() {
    let ser = MsgPackSerializer {};
    for m in [
        Msg::Publish {
            request_id: 5,
            topic: b"reswarm.containers.run".to_vec(),
            args: sample_args(),
            kwargs: sample_kwargs(),
        },
        Msg::Event {
            subscription_id: 77,
            publication_id: 1001,
            args: sample_args(),
            kwargs: sample_kwargs(),
        },
        Msg::Call {
            request_id: 6,
            procedure: b"reswarm.containers.logs".to_vec(),
            args: sample_args(),
            kwargs: sample_kwargs(),
        },
        Msg::CallResult { request_id: 6, args: sample_args(), kwargs: sample_kwargs() },
    ] {
        let bytes = s(&ser, &m);
        assert_eq!(ser.unpack(&bytes), Ok(m));
    }
}

#[test]
fn round_trip_empty_payloads() {
    let ser = MsgPackSerializer {};
    let m = Msg::Event {
        subscription_id: 0,
        publication_id: 0,
        args: Vec::new(),
        kwargs: Vec::new(),
    };
    let bytes = s(&ser, &m);
    assert_eq!(ser.unpack(&bytes), Ok(m));
}

#[test]
fn welcome_wire_bytes_are_exact() {
    let ser = MsgPackSerializer {};
    let bytes = s(&ser, &Msg::Welcome { session_id: 7 });
    let expected = vec![
        0xdd, 0x00, 0x00, 0x00, 0x02, // array of two fields
        0xcf, 0, 0, 0, 0, 0, 0, 0, 2, // message code
        0xcf, 0, 0, 0, 0, 0, 0, 0, 7, // session id
    ];
    assert_eq!(bytes, expected);
}

#[test]
fn unpack_rejects_truncation_without_panicking() {
    let ser = MsgPackSerializer {};
    let m = Msg::Publish {
        request_id: 5,
        topic: b"reswarm.containers.helloworld".to_vec(),
        args: vec![Value::Text(b"x".to_vec())],
        kwargs: vec![(b"k".to_vec(), Value::Text(b"v".to_vec()))],
    };
    let bytes = s(&ser, &m);
    for cut in 0..bytes.len() {
        assert_eq!(
            ser.unpack(&bytes[..cut]),
            Err(SerializerError::Deserialization),
            "truncating to {cut} bytes must fail"
        );
    }
}

#[test]
fn unpack_rejects_trailing_garbage() {
    let ser = MsgPackSerializer {};
    let mut bytes = s(&ser, &Msg::Welcome { session_id: 1 });
    bytes.push(0x00);
    assert_eq!(ser.unpack(&bytes), Err(SerializerError::Deserialization));
}

#[test]
fn unpack_rejects_arbitrary_bytes() {
    let ser = MsgPackSerializer {};
    let mut x: u64 = 0x243F6A8885A308D3;
    for len in 0..64usize {
        let mut bytes = Vec::with_capacity(len);
        for _ in 0..len {
            x = x.wrapping_mul(6364136223846793005).wrapping_add(1442695040888963407);
            bytes.push((x >> 33) as u8);
        }
        match ser.unpack(&bytes) {
            Ok(_) => {} // an accidental valid encoding decodes; nothing panics
            Err(e) => assert_eq!(e, SerializerError::Deserialization),
        }
    }
}

#[test]
fn unpack_rejects_unknown_message_code() {
    let ser = MsgPackSerializer {};
    // A well-formed array [Int(999), Int(1)] is no known protocol message.
    let mut bytes = vec![0xdd, 0x00, 0x00, 0x00, 0x02];
    bytes.push(0xcf);
    bytes.extend_from_slice(&999u64.to_be_bytes());
    bytes.push(0xcf);
    bytes.extend_from_slice(&1u64.to_be_bytes());
    assert_eq!(ser.unpack(&bytes), Err(SerializerError::Deserialization));
}

#[test]
fn unpack_rejects_non_list_value() {
    let ser = MsgPackSerializer {};
    // A bare integer is a valid value but no message envelope.
    let mut bytes = vec![0xcf];
    bytes.extend_from_slice(&2u64.to_be_bytes());
    assert_eq!(ser.unpack(&bytes), Err(SerializerError::Deserialization));
}
