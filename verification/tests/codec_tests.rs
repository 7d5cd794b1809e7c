use kv::buffer::{MessageReader, WriteBuffer};
use kv::frame::{decode_frame, encode_frame, COMPRESSION_LIMIT};
use kv::msg::{CommandRequest, CommandResponse};
use kv::value::{Kvpair, Value, ValueVariant};

fn request_round_trip(cmd: CommandRequest) {
    let bytes = cmd.encode();
    let back = CommandRequest::decode(&bytes).unwrap();
    assert_eq!(back, cmd);
}

fn response_round_trip(res: &CommandResponse) {
    let bytes = res.encode();
    let back = CommandResponse::decode(&bytes).unwrap();
    assert_eq!(&back, res);
}

#[test]
fn every_request_variant_round_trips() {
    request_round_trip(CommandRequest { request_data: None });
    request_round_trip(CommandRequest::new_hget("t1", "k1"));
    request_round_trip(CommandRequest::new_hgetall("t1"));
    request_round_trip(CommandRequest::new_hmget(
        "t1",
        vec!["a".into(), "b".into(), "".into()],
    ));
    request_round_trip(CommandRequest::new_hset("t1", "k1", "v1".into()));
    request_round_trip(CommandRequest::new_hmset(
        "t1",
        vec![
            Kvpair::new("a", Value::from(true)),
            Kvpair::new("b", Value::from(-17i64)),
            Kvpair {
                key: "c".into(),
                value: None,
            },
        ],
    ));
    request_round_trip(CommandRequest::new_hdel("t1", "k1"));
    request_round_trip(CommandRequest::new_hmdel("t1", vec!["a".into(), "b".into()]));
    request_round_trip(CommandRequest::new_hexist("t1", "k1"));
    request_round_trip(CommandRequest::new_hmexist("t1", vec![]));
    request_round_trip(CommandRequest::new_subscribe("lobby"));
    request_round_trip(CommandRequest::new_unsubscribe("lobby", u32::MAX));
    request_round_trip(CommandRequest::new_publish(
        "lobby",
        vec![
            Value::default(),
            Value::from("text"),
            Value::from(i64::MIN),
            Value {
                value: Some(ValueVariant::Float(f64::to_bits(2.5))),
            },
            Value::from(vec![0u8, 255u8, 7u8]),
        ],
    ));
}

#[test]
fn every_value_variant_round_trips() {
    let values = vec![
        Value::default(),
        Value::from("héllo — ünïcode ✓"),
        Value::from(""),
        Value::from(0i64),
        Value::from(i64::MIN),
        Value::from(i64::MAX),
        Value::from(true),
        Value::from(false),
        Value::from(Vec::<u8>::new()),
        Value::from(vec![1u8, 2, 3]),
        Value {
            value: Some(ValueVariant::Float(f64::to_bits(-0.0))),
        },
        Value {
            value: Some(ValueVariant::Float(u64::MAX)),
        },
    ];
    for v in values {
        let bytes = v.encode();
        let back = Value::decode(&bytes).unwrap();
        assert_eq!(back, v);
    }
}

#[test]
fn responses_round_trip() {
    response_round_trip(&CommandResponse::ok());
    response_round_trip(&CommandResponse::default());
    response_round_trip(&CommandResponse::internal_error("boom".into()));
    response_round_trip(&CommandResponse {
        status: 200,
        message: "".into(),
        values: vec![Value::from(1i64), Value::from("x")],
        pairs: vec![
            Kvpair::new("k", Value::from("v")),
            Kvpair {
                key: "empty".into(),
                value: None,
            },
        ],
    });
}

#[test]
fn frame_round_trip_under_compression_threshold() {
    let cmd = CommandRequest::new_hset("t1", "k1", "v1".into());
    let frame = encode_frame(&cmd).unwrap();
    assert!(frame.len() <= COMPRESSION_LIMIT + 4);
    // An uncompressed frame has the flag bit clear.
    assert_eq!(frame[0] & 0x80, 0);
    let back: CommandRequest = decode_frame(&frame).unwrap();
    assert_eq!(back, cmd);
}

#[test]
fn frame_round_trip_over_compression_threshold() {
    let big = Value::from(vec![0u8; 16384]);
    let cmd = CommandRequest::new_hset("t2", "k2", big);
    let frame = encode_frame(&cmd).unwrap();
    // A compressed frame has the flag bit set, and a run of zeroes shrinks.
    assert_eq!(frame[0] & 0x80, 0x80);
    assert!(frame.len() < 16384);
    let back: CommandRequest = decode_frame(&frame).unwrap();
    assert_eq!(back, cmd);

    let res = CommandResponse {
        status: 200,
        message: "".into(),
        values: vec![Value::from(vec![7u8; 20000])],
        pairs: vec![],
    };
    let frame = encode_frame(&res).unwrap();
    let back: CommandResponse = decode_frame(&frame).unwrap();
    assert_eq!(back, res);
}

#[test]
fn truncated_and_oversized_frames_are_errors() {
    let short: Vec<u8> = vec![0, 0, 1];
    assert!(decode_frame::<CommandRequest>(&short).is_err());

    // A header announcing more than the frame limit is refused outright.
    let oversized: Vec<u8> = vec![0x7F, 0xFF, 0xFF, 0xFF];
    let err = decode_frame::<CommandRequest>(&oversized).unwrap_err();
    assert_eq!(err.status(), 500);
    assert!(err.message().contains("Frame error"));

    // A header announcing more bytes than follow is refused.
    let hungry: Vec<u8> = vec![0, 0, 0, 5, 1, 2];
    assert!(decode_frame::<CommandRequest>(&hungry).is_err());

    // A payload that is not a canonical message encoding is refused.
    let garbage: Vec<u8> = vec![0, 0, 0, 2, 0xFF, 0xFF];
    assert!(decode_frame::<CommandRequest>(&garbage).is_err());
}

#[test]
fn prost_stream_should_work() {
    let mut writer = WriteBuffer::new();
    let mut reader = MessageReader::new();

    let cmd = CommandRequest::new_hdel("t1", "k1");
    writer.queue_frame(&cmd).unwrap();

    let bytes = writer.pending();
    writer.advance(bytes.len());
    assert!(writer.is_drained());
    writer.clear();

    reader.feed(&bytes);
    let got: CommandRequest = reader.try_take().unwrap().unwrap();
    assert_eq!(got, cmd);
    assert_eq!(reader.len(), 0);
}

#[test]
fn reader_waits_for_whole_frames_and_keeps_the_rest() {
    let cmd1 = CommandRequest::new_hget("t", "a");
    let cmd2 = CommandRequest::new_hget("t", "b");
    let f1 = encode_frame(&cmd1).unwrap();
    let f2 = encode_frame(&cmd2).unwrap();

    let mut reader = MessageReader::new();
    reader.feed(&f1[..2]);
    assert!(reader.try_take::<CommandRequest>().unwrap().is_none());
    reader.feed(&f1[2..]);
    reader.feed(&f2);

    let got: CommandRequest = reader.try_take().unwrap().unwrap();
    assert_eq!(got, cmd1);
    let got: CommandRequest = reader.try_take().unwrap().unwrap();
    assert_eq!(got, cmd2);
    assert!(reader.try_take::<CommandRequest>().unwrap().is_none());
}

#[test]
fn writer_tolerates_short_writes() {
    let cmd = CommandRequest::new_hset("t", "k", Value::from(9i64));
    let mut writer = WriteBuffer::new();
    writer.queue_frame(&cmd).unwrap();

    let mut sent: Vec<u8> = Vec::new();
    while !writer.is_drained() {
        let pending = writer.pending();
        let n = 3.min(pending.len());
        sent.extend_from_slice(&pending[..n]);
        writer.advance(n);
    }
    let back: CommandRequest = decode_frame(&sent).unwrap();
    assert_eq!(back, cmd);
}

#[test]
fn value_conversions_report_mismatches() {
    let v = Value::from("text");
    assert!(v.as_i64().is_err());
    assert!(v.as_bool().is_err());
    assert!(v.as_binary().is_err());
    assert!(v.as_float_bits().is_err());

    let v = Value::from(5i64);
    assert_eq!(v.as_i64().unwrap(), 5);
    let err = v.as_bool().unwrap_err();
    assert!(err.message().contains("Convert error"));
    assert_eq!(err.status(), 500);
}

#[test]
fn debug_renderings_reflect_the_data() {
    let v = Value::from(5i64);
    let text = v.format();
    assert!(text.contains("5"));

    let cmd = CommandRequest::new_hget("t1", "k1");
    let text = cmd.format();
    assert!(text.contains("Hget"));
    assert!(text.contains("t1"));
    assert!(text.contains("k1"));

    let res = CommandResponse::ok();
    let text = res.format();
    assert!(text.contains("200"));
}
