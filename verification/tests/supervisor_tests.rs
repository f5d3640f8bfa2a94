use firewall::classifier::{classify_frame, Verdict};
use firewall::dispatch::{Handled, StoreEffect, Supervisor};
use firewall::lifecycle::{LifecycleState, LinkAction};
use firewall::schema::{
    Action, Direction, Event, Match, Rule, SocketAddress, StoredRuleDecoded, Timestamp,
};
use firewall::wire::{
    EventQuery, Message, Request, Response, RuleChange, RuleStatus, Status,
};
use firewall::MAX_RULES;

const PROTO_ICMP: u8 = 1;

fn at(micros: i64) -> Timestamp {
    Timestamp { micros }
}

fn meta(name: &str, matches: Match) -> StoredRuleDecoded {
    StoredRuleDecoded {
        id: 0,
        name: name.as_bytes().to_vec(),
        description: b"test".to_vec(),
        rule: Rule {
            id: 0,
            action: Action::Drop,
            matches,
            applies_to: Direction::Source,
            enabled: false,
            init: false,
        },
    }
}

fn add(s: &mut Supervisor, name: &str, matches: Match) -> u32 {
    match s.handle_request_at(&Request::AddRule(meta(name, matches)), at(0)) {
        (Some(Response::Id(i)), StoreEffect::Write(j)) => {
            assert_eq!(i, j);
            i
        },
        other => panic!("add did not yield an id: {:?}", other.0),
    }
}

#[test]
fn add_assigns_smallest_free_index() {
    let mut s = Supervisor::new();
    assert_eq!(add(&mut s, "a", Match::Port(1)), 0);
    assert_eq!(add(&mut s, "b", Match::Port(2)), 1);
    let (resp, eff) = s.handle_request_at(&Request::DeleteRule(0), at(0));
    assert!(resp.is_none());
    assert_eq!(eff, StoreEffect::Delete(0));
    assert_eq!(add(&mut s, "c", Match::Port(3)), 0);
}

#[test]
fn toggle_and_enable_report_changes_and_writes() {
    let mut s = Supervisor::new();
    add(&mut s, "a", Match::Port(1));
    // enabling a fresh (disabled) rule is a change and a durable write
    let (resp, eff) = s.handle_request_at(&Request::EnableRule(0), at(0));
    assert_eq!(resp, Some(Response::RuleChange(RuleChange::Change(RuleStatus::Active))));
    assert_eq!(eff, StoreEffect::Write(0));
    // enabling again requires no change and performs no durable write
    let (resp, eff) = s.handle_request_at(&Request::EnableRule(0), at(0));
    assert_eq!(
        resp,
        Some(Response::RuleChange(RuleChange::NoChangeRequired(RuleStatus::Active))),
    );
    assert_eq!(eff, StoreEffect::NoWrite);
    // toggling twice returns to the initial state
    let (resp, _) = s.handle_request_at(&Request::ToggleRule(0), at(0));
    assert_eq!(resp, Some(Response::RuleChange(RuleChange::Change(RuleStatus::Inactive))));
    let (resp, _) = s.handle_request_at(&Request::ToggleRule(0), at(0));
    assert_eq!(resp, Some(Response::RuleChange(RuleChange::Change(RuleStatus::Active))));
    // toggling a free slot reports the missing rule
    let (resp, eff) = s.handle_request_at(&Request::ToggleRule(1), at(0));
    assert_eq!(resp, Some(Response::RuleChange(RuleChange::NoSuchRule)));
    assert_eq!(eff, StoreEffect::NoWrite);
}

#[test]
fn out_of_range_indices() {
    let mut s = Supervisor::new();
    for req in [
        Request::EnableRule(MAX_RULES),
        Request::DisableRule(MAX_RULES + 5),
        Request::ToggleRule(u32::MAX),
        Request::UpdateRule(MAX_RULES, meta("x", Match::Port(1)).rule),
    ] {
        let (resp, eff) = s.handle_request_at(&req, at(0));
        assert_eq!(resp, Some(Response::RuleChange(RuleChange::NoSuchRule)));
        assert_eq!(eff, StoreEffect::NoWrite);
    }
    let (resp, eff) = s.handle_request_at(&Request::DeleteRule(MAX_RULES), at(0));
    assert!(resp.is_none());
    assert_eq!(eff, StoreEffect::NoWrite);
    let (resp, _) = s.handle_request_at(&Request::GetRule(MAX_RULES), at(0));
    assert!(resp.is_none(), "an out-of-range read elicits no response");
}

#[test]
fn capacity_list_full_and_reuse() {
    let mut s = Supervisor::new();
    for i in 0..MAX_RULES {
        assert_eq!(add(&mut s, "r", Match::Port(i as u16)), i);
    }
    let (resp, eff) = s.handle_request_at(&Request::AddRule(meta("x", Match::Port(7))), at(0));
    assert_eq!(resp, Some(Response::ListFull));
    assert_eq!(eff, StoreEffect::NoWrite);
    s.handle_request_at(&Request::DeleteRule(42), at(0));
    assert_eq!(add(&mut s, "y", Match::Port(7)), 42);
}

#[test]
fn get_rule_and_get_rules_carry_metadata() {
    let mut s = Supervisor::new();
    add(&mut s, "first", Match::Port(1));
    add(&mut s, "second", Match::Port(2));
    let (resp, _) = s.handle_request_at(&Request::GetRule(1), at(0));
    match resp {
        Some(Response::Rule(row)) => {
            assert_eq!(row.id, 1);
            assert_eq!(row.name, b"second".to_vec());
            assert_eq!(row.rule.matches, Match::Port(2));
        },
        other => panic!("unexpected response: {:?}", other),
    }
    let (resp, _) = s.handle_request_at(&Request::GetRule(5), at(0));
    assert_eq!(resp, Some(Response::DoesNotExist));
    let (resp, _) = s.handle_request_at(&Request::GetRules, at(0));
    match resp {
        Some(Response::Rules(rows)) => {
            assert_eq!(rows.len(), 2);
            assert_eq!(rows[0].name, b"first".to_vec());
            assert_eq!(rows[1].name, b"second".to_vec());
        },
        other => panic!("unexpected response: {:?}", other),
    }
}

#[test]
fn update_rewrites_match_but_keeps_slot() {
    let mut s = Supervisor::new();
    add(&mut s, "a", Match::Port(1));
    s.handle_request_at(&Request::EnableRule(0), at(0));
    let replacement = Rule {
        id: 9,
        action: Action::Accept,
        matches: Match::Protocol(6),
        applies_to: Direction::Destination,
        enabled: false,
        init: false,
    };
    let (resp, eff) = s.handle_request_at(&Request::UpdateRule(0, replacement), at(0));
    assert!(resp.is_none());
    assert_eq!(eff, StoreEffect::Write(0));
    let (resp, _) = s.handle_request_at(&Request::GetRule(0), at(0));
    match resp {
        Some(Response::Rule(row)) => {
            assert_eq!(row.rule.id, 0);
            assert!(row.rule.enabled, "the enabled state survives");
            assert_eq!(row.rule.action, Action::Accept);
            assert_eq!(row.rule.matches, Match::Protocol(6));
        },
        other => panic!("unexpected response: {:?}", other),
    }
}

#[test]
fn lifecycle_status_and_link_actions() {
    let mut s = Supervisor::new();
    let status = |s: &mut Supervisor| match s.handle_request_at(&Request::Status, at(0)) {
        (Some(Response::Status(st)), _) => st,
        other => panic!("unexpected response: {:?}", other.0),
    };
    assert_eq!(status(&mut s), Status::Stopped);
    let h: Handled = s.handle_message_at(&Message::Start, at(0));
    assert_eq!(h.link, LinkAction::Attach);
    assert!(!h.stop);
    assert_eq!(status(&mut s), Status::Running);
    let h = s.handle_message_at(&Message::Start, at(0));
    assert_eq!(h.link, LinkAction::Keep, "a second start is a no-op");
    let h = s.handle_message_at(&Message::Halt, at(0));
    assert_eq!(h.link, LinkAction::Detach);
    assert_eq!(status(&mut s), Status::Stopped);
    let h = s.handle_message_at(&Message::Halt, at(0));
    assert_eq!(h.link, LinkAction::Keep, "a second halt is a no-op");
    let h = s.handle_message_at(&Message::Start, at(0));
    assert_eq!(h.link, LinkAction::Attach, "a fresh start attaches again");
    let h = s.handle_message_at(&Message::Terminate, at(0));
    assert_eq!(h.link, LinkAction::Detach);
    assert!(h.stop);
    assert_eq!(s.lifecycle, LifecycleState::Terminated);
    assert_eq!(status(&mut s), Status::Stopped);
}

#[test]
fn event_ingestion_filters_pass_and_queries_by_time() {
    let mut s = Supervisor::new();
    assert!(s.ingest_event(Event::Pass, at(1)).is_none());
    let b1 = Event::Blocked { rule: 0, addr: SocketAddress { ip: 1, port: 0 } };
    let b2 = Event::Blocked { rule: 1, addr: SocketAddress { ip: 2, port: 0 } };
    let b3 = Event::Blocked { rule: 2, addr: SocketAddress { ip: 3, port: 0 } };
    s.ingest_event(b1, at(100)).unwrap();
    s.ingest_event(b2, at(200)).unwrap();
    s.ingest_event(b3, at(300)).unwrap();
    // everything
    let (resp, _) = s.handle_request_at(&Request::GetEvents(EventQuery::All), at(1000));
    match resp {
        Some(Response::Events(es)) => assert_eq!(es.len(), 3),
        other => panic!("unexpected response: {:?}", other),
    }
    // at or after the middle instant, in storage order
    let (resp, _) =
        s.handle_request_at(&Request::GetEvents(EventQuery::Since(at(200))), at(1000));
    match resp {
        Some(Response::Events(es)) => {
            assert_eq!(es.len(), 2);
            assert_eq!(es[0].time, at(200));
            assert_eq!(es[0].event, b2);
            assert_eq!(es[1].time, at(300));
            assert_eq!(es[1].event, b3);
        },
        other => panic!("unexpected response: {:?}", other),
    }
    // within the last 150 microseconds of instant 350
    let (resp, _) = s.handle_request_at(&Request::GetEvents(EventQuery::Last(150)), at(350));
    match resp {
        Some(Response::Events(es)) => {
            assert_eq!(es.len(), 2);
            assert_eq!(es[0].event, b2);
            assert_eq!(es[1].event, b3);
        },
        other => panic!("unexpected response: {:?}", other),
    }
}

#[test]
fn add_enable_classify_emit() {
    // load an empty table, add a drop rule on ICMP from the source side,
    // enable it, classify an ICMP echo from 10.0.0.5, and ingest the event
    let mut s = Supervisor::new();
    let (resp, _) = s.handle_request_at(
        &Request::AddRule(meta("icmp", Match::Protocol(PROTO_ICMP))),
        at(0),
    );
    assert_eq!(resp, Some(Response::Id(0)));
    let (resp, _) = s.handle_request_at(&Request::EnableRule(0), at(0));
    assert_eq!(resp, Some(Response::RuleChange(RuleChange::Change(RuleStatus::Active))));

    let mut frame = vec![0u8; 12];
    frame.extend_from_slice(&[0x08, 0x00]);
    let mut ip = vec![0u8; 20];
    ip[0] = 0x45;
    ip[9] = PROTO_ICMP;
    ip[12..16].copy_from_slice(&0x0a000005u32.to_be_bytes());
    ip[16..20].copy_from_slice(&0x0a000001u32.to_be_bytes());
    frame.extend_from_slice(&ip);

    let (verdict, event) = classify_frame(&s.table, &frame);
    assert_eq!(verdict, Verdict::Drop);
    let expected = Event::Blocked { rule: 0, addr: SocketAddress { ip: 0x0a000005, port: 0 } };
    assert_eq!(event, expected);

    let stored = s.ingest_event(event, at(777)).unwrap();
    assert_eq!(stored.event, expected);
    assert_eq!(stored.time, at(777));
    let (resp, _) = s.handle_request_at(&Request::GetEvents(EventQuery::All), at(1000));
    match resp {
        Some(Response::Events(es)) => {
            assert_eq!(es.len(), 1);
            assert_eq!(es[0].event, expected);
        },
        other => panic!("unexpected response: {:?}", other),
    }
}

#[test]
fn toggle_idempotence_scenario() {
    // starting from the state of the add-enable scenario
    let mut s = Supervisor::new();
    add(&mut s, "icmp", Match::Protocol(PROTO_ICMP));
    s.handle_request_at(&Request::EnableRule(0), at(0));
    let before = match s.handle_request_at(&Request::GetRule(0), at(0)).0 {
        Some(Response::Rule(row)) => row,
        other => panic!("unexpected response: {:?}", other),
    };
    let (r1, _) = s.handle_request_at(&Request::ToggleRule(0), at(0));
    assert_eq!(r1, Some(Response::RuleChange(RuleChange::Change(RuleStatus::Inactive))));
    let (r2, _) = s.handle_request_at(&Request::ToggleRule(0), at(0));
    assert_eq!(r2, Some(Response::RuleChange(RuleChange::Change(RuleStatus::Active))));
    let after = match s.handle_request_at(&Request::GetRule(0), at(0)).0 {
        Some(Response::Rule(row)) => row,
        other => panic!("unexpected response: {:?}", other),
    };
    assert_eq!(before, after);
}

#[test]
fn persistence_across_restart() {
    // add rules at indices 0..=5, free 1, 3, 4, then delete index 2, dump
    // the rows and rebuild: exactly the rules at 0 and 5 survive intact
    let mut s = Supervisor::new();
    for i in 0..6u16 {
        add(&mut s, &format!("rule {}", i), Match::Port(i));
    }
    for i in [1u32, 3, 4] {
        s.handle_request_at(&Request::DeleteRule(i), at(0));
    }
    s.handle_request_at(&Request::EnableRule(5), at(0));
    // now rules sit at 0, 2 and 5; drop index 2 as the scenario asks
    s.handle_request_at(&Request::DeleteRule(2), at(0));
    let dumped = s.list_rows();
    s.handle_message_at(&Message::Terminate, at(0));

    let mut restored = Supervisor::restore(&dumped);
    let rows = match restored.handle_request_at(&Request::GetRules, at(0)) {
        (Some(Response::Rules(rows)), _) => rows,
        other => panic!("unexpected response: {:?}", other.0),
    };
    assert_eq!(rows.len(), 2);
    assert_eq!(rows[0].id, 0);
    assert_eq!(rows[0].name, b"rule 0".to_vec());
    assert_eq!(rows[0].rule.matches, Match::Port(0));
    assert!(!rows[0].rule.enabled);
    assert_eq!(rows[1].id, 5);
    assert_eq!(rows[1].name, b"rule 5".to_vec());
    assert_eq!(rows[1].rule.matches, Match::Port(5));
    assert!(rows[1].rule.enabled, "the enabled state is restored");
}

#[test]
fn wall_clock_queries_through_handle_message() {
    // the clock-reading entry point: whatever instant it reads, an
    // unbounded window keeps everything and a far-future cutoff nothing
    let mut s = Supervisor::new();
    let b = Event::Blocked { rule: 0, addr: SocketAddress { ip: 1, port: 0 } };
    s.ingest_event(b, at(0)).unwrap();
    let h = s.handle_message(&Message::Firewall(Request::GetEvents(EventQuery::Last(u64::MAX))));
    match h.response {
        Some(Response::Events(es)) => assert_eq!(es.len(), 1),
        other => panic!("unexpected response: {:?}", other),
    }
    let h = s.handle_message(&Message::Firewall(Request::GetEvents(EventQuery::Since(at(
        i64::MAX,
    )))));
    match h.response {
        Some(Response::Events(es)) => assert!(es.is_empty()),
        other => panic!("unexpected response: {:?}", other),
    }
    let h = s.handle_message(&Message::Firewall(Request::Status));
    assert!(matches!(h.response, Some(Response::Status(Status::Stopped))));
}
