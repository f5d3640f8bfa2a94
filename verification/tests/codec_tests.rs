use firewall::codec::{
    put_bool, put_bytes, put_i64, put_u16, put_u32, put_u64, put_u8, read_bool, read_bytes,
    read_i64, read_u16, read_u32, read_u64, read_u8,
};
use firewall::codec_schema::{
    put_event, put_rule, put_stored_event, put_stored_rule, put_timestamp, read_event, read_rule,
    read_stored_event, read_stored_rule, read_timestamp,
};
use firewall::codec_wire::{
    frame_log_kind, frame_message, frame_response, put_event_query, put_log, put_message,
    put_request, put_response, put_rule_change, put_rule_list, read_event_query, read_log,
    read_message, read_request, read_response, read_rule_change, read_rule_list, unframe_log_kind,
    unframe_message, unframe_response,
};
use firewall::schema::{
    Action, Direction, Event, Match, Rule, SocketAddress, StoredEventDecoded, StoredRuleDecoded,
    Timestamp,
};
use firewall::wire::{
    EventQuery, Log, LogKind, Message, Request, Response, RuleChange, RuleStatus, Status,
};

fn sample_rule() -> Rule {
    Rule {
        id: 3,
        action: Action::Drop,
        matches: Match::Socket(SocketAddress { ip: 0x0a000005, port: 443 }),
        applies_to: Direction::Destination,
        enabled: true,
        init: true,
    }
}

fn sample_stored_rule() -> StoredRuleDecoded {
    StoredRuleDecoded {
        id: 3,
        name: b"block https".to_vec(),
        description: b"drop tls to the lab host".to_vec(),
        rule: sample_rule(),
    }
}

fn sample_event() -> Event {
    Event::Blocked { rule: 7, addr: SocketAddress { ip: 0x0a000005, port: 0 } }
}

fn sample_stored_event() -> StoredEventDecoded {
    StoredEventDecoded { time: Timestamp { micros: 1_700_000_000_000_000 }, event: sample_event() }
}

#[test]
fn u32_little_endian_layout() {
    let mut out = Vec::new();
    put_u32(0x01020304, &mut out);
    assert_eq!(out, vec![0x04, 0x03, 0x02, 0x01]);
    assert_eq!(read_u32(&out, 0), Some((0x01020304, 4)));
}

#[test]
fn u16_and_u64_round_trip() {
    let mut out = Vec::new();
    put_u16(0xbeef, &mut out);
    put_u64(0x1122334455667788, &mut out);
    assert_eq!(out[0..2], [0xef, 0xbe]);
    assert_eq!(read_u16(&out, 0), Some((0xbeef, 2)));
    assert_eq!(read_u64(&out, 2), Some((0x1122334455667788, 10)));
}

#[test]
fn u8_bool_i64_round_trip() {
    let mut out = Vec::new();
    put_u8(9, &mut out);
    put_bool(true, &mut out);
    put_bool(false, &mut out);
    put_i64(-5, &mut out);
    assert_eq!(read_u8(&out, 0), Some((9, 1)));
    assert_eq!(read_bool(&out, 1), Some((true, 2)));
    assert_eq!(read_bool(&out, 2), Some((false, 3)));
    assert_eq!(read_i64(&out, 3), Some((-5, 11)));
}

#[test]
fn bool_rejects_other_bytes() {
    let buf = vec![2u8];
    assert_eq!(read_bool(&buf, 0), None);
}

#[test]
fn bytes_round_trip_with_length_prefix() {
    let payload = b"adam".to_vec();
    let mut out = Vec::new();
    put_bytes(&payload, &mut out);
    assert_eq!(out.len(), 8 + 4);
    assert_eq!(out[0], 4);
    assert_eq!(&out[8..], b"adam");
    let (back, end) = read_bytes(&out, 0).unwrap();
    assert_eq!(back, payload);
    assert_eq!(end, 12);
}

#[test]
fn truncated_reads_fail() {
    let buf = vec![1u8, 2, 3];
    assert_eq!(read_u32(&buf, 0), None);
    assert_eq!(read_u64(&buf, 0), None);
    assert_eq!(read_u8(&buf, 3), None);
    let mut long = Vec::new();
    put_u64(100, &mut long);
    assert_eq!(read_bytes(&long, 0), None);
}

#[test]
fn rule_round_trip() {
    let rule = sample_rule();
    let mut out = Vec::new();
    put_rule(&rule, &mut out);
    let (back, end) = read_rule(&out, 0).unwrap();
    assert_eq!(back, rule);
    assert_eq!(end, out.len());
}

#[test]
fn event_round_trip() {
    for e in [Event::Pass, sample_event()] {
        let mut out = Vec::new();
        put_event(&e, &mut out);
        let (back, end) = read_event(&out, 0).unwrap();
        assert_eq!(back, e);
        assert_eq!(end, out.len());
    }
}

#[test]
fn timestamp_round_trip() {
    let t = Timestamp { micros: -123456789 };
    let mut out = Vec::new();
    put_timestamp(&t, &mut out);
    assert_eq!(read_timestamp(&out, 0), Some((t, 8)));
}

#[test]
fn stored_rule_round_trip() {
    let row = sample_stored_rule();
    let mut out = Vec::new();
    put_stored_rule(&row, &mut out);
    let (back, end) = read_stored_rule(&out, 0).unwrap();
    assert_eq!(back, row);
    assert_eq!(end, out.len());
}

#[test]
fn stored_event_round_trip() {
    let se = sample_stored_event();
    let mut out = Vec::new();
    put_stored_event(&se, &mut out);
    let (back, end) = read_stored_event(&out, 0).unwrap();
    assert_eq!(back, se);
    assert_eq!(end, out.len());
}

#[test]
fn rule_list_round_trip() {
    let rows = vec![sample_stored_rule(), {
        let mut other = sample_stored_rule();
        other.id = 9;
        other.name = Vec::new();
        other
    }];
    let mut out = Vec::new();
    put_rule_list(&rows, &mut out);
    let (back, end) = read_rule_list(&out, 0).unwrap();
    assert_eq!(back, rows);
    assert_eq!(end, out.len());

    let empty: Vec<StoredRuleDecoded> = Vec::new();
    let mut out2 = Vec::new();
    put_rule_list(&empty, &mut out2);
    assert_eq!(out2, vec![0u8; 8]);
    assert_eq!(read_rule_list(&out2, 0), Some((Vec::new(), 8)));
}

#[test]
fn rule_change_round_trip() {
    for c in [
        RuleChange::NoSuchRule,
        RuleChange::NoChangeRequired(RuleStatus::Active),
        RuleChange::Change(RuleStatus::Inactive),
    ] {
        let mut out = Vec::new();
        put_rule_change(&c, &mut out);
        let (back, end) = read_rule_change(&out, 0).unwrap();
        assert_eq!(back, c);
        assert_eq!(end, out.len());
    }
}

#[test]
fn event_query_round_trip() {
    for q in [
        EventQuery::All,
        EventQuery::Last(320_000_000),
        EventQuery::Since(Timestamp { micros: 1_635_724_800_000_000 }),
    ] {
        let mut out = Vec::new();
        put_event_query(&q, &mut out);
        let (back, end) = read_event_query(&out, 0).unwrap();
        assert_eq!(back, q);
        assert_eq!(end, out.len());
    }
}

#[test]
fn request_round_trip() {
    let requests = vec![
        Request::AddRule(sample_stored_rule()),
        Request::DeleteRule(1),
        Request::EnableRule(2),
        Request::DisableRule(3),
        Request::ToggleRule(4),
        Request::UpdateRule(5, sample_rule()),
        Request::GetRule(6),
        Request::GetRules,
        Request::Status,
        Request::GetEvents(EventQuery::Last(60_000_000)),
    ];
    for rq in requests {
        let mut out = Vec::new();
        put_request(&rq, &mut out);
        let (back, end) = read_request(&out, 0).unwrap();
        assert_eq!(back, rq);
        assert_eq!(end, out.len());
    }
}

#[test]
fn response_round_trip() {
    let responses = vec![
        Response::Id(42),
        Response::ListFull,
        Response::Rules(vec![sample_stored_rule()]),
        Response::Rule(sample_stored_rule()),
        Response::DoesNotExist,
        Response::Status(Status::Running),
        Response::RuleChange(RuleChange::Change(RuleStatus::Active)),
        Response::Events(vec![sample_stored_event()]),
    ];
    for rp in responses {
        let mut out = Vec::new();
        put_response(&rp, &mut out);
        let (back, end) = read_response(&out, 0).unwrap();
        assert_eq!(back, rp);
        assert_eq!(end, out.len());
    }
}

#[test]
fn message_round_trip() {
    let messages = vec![
        Message::Terminate,
        Message::Start,
        Message::Halt,
        Message::Firewall(Request::ToggleRule(0)),
    ];
    for m in messages {
        let mut out = Vec::new();
        put_message(&m, &mut out);
        let (back, end) = read_message(&out, 0).unwrap();
        assert_eq!(back, m);
        assert_eq!(end, out.len());
    }
}

#[test]
fn log_round_trip() {
    let log = Log {
        time: Timestamp { micros: 55 },
        kind: LogKind::Event(sample_stored_event()),
    };
    let mut out = Vec::new();
    put_log(&log, &mut out);
    let (back, end) = read_log(&out, 0).unwrap();
    assert_eq!(back, log);
    assert_eq!(end, out.len());
}

#[test]
fn bad_tags_are_rejected() {
    let mut out = Vec::new();
    put_u32(99, &mut out);
    assert_eq!(read_message(&out, 0), None);
    assert_eq!(read_request(&out, 0), None);
    assert_eq!(read_response(&out, 0), None);
    assert_eq!(read_event_query(&out, 0), None);
    assert_eq!(read_rule_change(&out, 0), None);
}

#[test]
fn framed_message_round_trip() {
    let m = Message::Firewall(Request::GetRules);
    let frame = frame_message(&m);
    let (back, end) = unframe_message(&frame, 0).unwrap();
    assert_eq!(back, m);
    assert_eq!(end, frame.len());
    // the first eight bytes carry the payload length
    let payload_len = u64::from_le_bytes(frame[0..8].try_into().unwrap());
    assert_eq!(payload_len as usize, frame.len() - 8);
}

#[test]
fn framed_response_round_trip() {
    let r = Response::Events(vec![sample_stored_event()]);
    let frame = frame_response(&r);
    let (back, end) = unframe_response(&frame, 0).unwrap();
    assert_eq!(back, r);
    assert_eq!(end, frame.len());
}

#[test]
fn framed_log_kind_round_trip() {
    let k = LogKind::Event(sample_stored_event());
    let frame = frame_log_kind(&k);
    let (back, end) = unframe_log_kind(&frame, 0).unwrap();
    assert_eq!(back, k);
    assert_eq!(end, frame.len());
}

#[test]
fn frame_with_trailing_garbage_in_payload_is_rejected() {
    let m = Message::Start;
    let mut payload = Vec::new();
    put_message(&m, &mut payload);
    payload.push(0);
    let mut frame = Vec::new();
    put_bytes(&payload, &mut frame);
    assert_eq!(unframe_message(&frame, 0), None);
}
