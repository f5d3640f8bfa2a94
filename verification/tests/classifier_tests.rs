use firewall::classifier::{classify_and_log, classify_frame, EventRing, Verdict, PROTO_TCP};
use firewall::schema::{Action, Direction, Event, Match, Rule, SocketAddress};
use firewall::table::{RuleTable, ToggleAction};

const PROTO_ICMP: u8 = 1;

/// An Ethernet frame carrying an IPv4 packet, with an optional 20-byte TCP
/// header holding the given ports.
fn ipv4_frame(src: u32, dst: u32, proto: u8, tcp: Option<(u16, u16)>) -> Vec<u8> {
    let mut p = vec![0u8; 12];
    p.extend_from_slice(&[0x08, 0x00]); // ethertype IPv4
    let mut ip = vec![0u8; 20];
    ip[0] = 0x45; // version 4, header length 20
    ip[9] = proto;
    ip[12..16].copy_from_slice(&src.to_be_bytes());
    ip[16..20].copy_from_slice(&dst.to_be_bytes());
    p.extend_from_slice(&ip);
    if let Some((sport, dport)) = tcp {
        let mut t = vec![0u8; 20];
        t[0..2].copy_from_slice(&sport.to_be_bytes());
        t[2..4].copy_from_slice(&dport.to_be_bytes());
        p.extend_from_slice(&t);
    } else {
        // room so that a stray TCP parse cannot run past the buffer
        p.extend_from_slice(&[0u8; 8]);
    }
    p
}

fn add_enabled(t: &mut RuleTable, action: Action, matches: Match, applies_to: Direction) -> u32 {
    let id = t
        .add(Rule { id: 0, action, matches, applies_to, enabled: false, init: false })
        .unwrap();
    t.set_enabled(id, ToggleAction::Enable);
    id
}

#[test]
fn short_frame_is_aborted() {
    let t = RuleTable::new();
    let (verdict, _) = classify_frame(&t, &vec![0u8; 10]);
    assert_eq!(verdict, Verdict::Aborted);
}

#[test]
fn non_ipv4_frame_passes() {
    let t = RuleTable::new();
    let mut p = vec![0u8; 12];
    p.extend_from_slice(&[0x86, 0xdd]); // another ethertype
    p.extend_from_slice(&[0u8; 40]);
    let (verdict, event) = classify_frame(&t, &p);
    assert_eq!(verdict, Verdict::Pass);
    assert_eq!(event, Event::Pass);
}

#[test]
fn empty_table_passes_ipv4() {
    let t = RuleTable::new();
    let p = ipv4_frame(0x0a000005, 0x0a000001, PROTO_ICMP, None);
    let (verdict, event) = classify_frame(&t, &p);
    assert_eq!(verdict, Verdict::Pass);
    assert_eq!(event, Event::Pass);
}

#[test]
fn protocol_rule_drops_and_reports_source() {
    // the first end-to-end scenario: a drop rule on the ICMP protocol
    let mut t = RuleTable::new();
    let id = add_enabled(&mut t, Action::Drop, Match::Protocol(PROTO_ICMP), Direction::Source);
    assert_eq!(id, 0);
    let p = ipv4_frame(0x0a000005, 0x0a000001, PROTO_ICMP, None);
    let (verdict, event) = classify_frame(&t, &p);
    assert_eq!(verdict, Verdict::Drop);
    assert_eq!(
        event,
        Event::Blocked { rule: 0, addr: SocketAddress { ip: 0x0a000005, port: 0 } },
    );
}

#[test]
fn disabled_rule_is_ignored() {
    let mut t = RuleTable::new();
    t.add(Rule {
        id: 0,
        action: Action::Drop,
        matches: Match::Protocol(PROTO_ICMP),
        applies_to: Direction::Source,
        enabled: false,
        init: false,
    });
    let p = ipv4_frame(0x0a000005, 0x0a000001, PROTO_ICMP, None);
    let (verdict, event) = classify_frame(&t, &p);
    assert_eq!(verdict, Verdict::Pass);
    assert_eq!(event, Event::Pass);
}

#[test]
fn address_rule_tests_the_chosen_side() {
    let mut t = RuleTable::new();
    add_enabled(&mut t, Action::Drop, Match::Match(0x0a000005), Direction::Destination);
    let towards = ipv4_frame(0x0a000001, 0x0a000005, 17, None);
    assert_eq!(classify_frame(&t, &towards).0, Verdict::Drop);
    let away = ipv4_frame(0x0a000005, 0x0a000001, 17, None);
    assert_eq!(classify_frame(&t, &away).0, Verdict::Pass);
}

#[test]
fn lower_index_wins() {
    let mut t = RuleTable::new();
    add_enabled(&mut t, Action::Accept, Match::Protocol(PROTO_ICMP), Direction::Source);
    add_enabled(&mut t, Action::Drop, Match::Protocol(PROTO_ICMP), Direction::Source);
    let p = ipv4_frame(0x0a000005, 0x0a000001, PROTO_ICMP, None);
    let (verdict, event) = classify_frame(&t, &p);
    assert_eq!(verdict, Verdict::Pass, "the accepting rule at the lower index wins");
    assert_eq!(event, Event::Pass);
}

#[test]
fn port_rule_needs_the_transport_stage() {
    let mut t = RuleTable::new();
    add_enabled(&mut t, Action::Drop, Match::Port(443), Direction::Destination);
    let tcp = ipv4_frame(0x0a000005, 0x0a000001, PROTO_TCP, Some((50000, 443)));
    let (verdict, event) = classify_frame(&t, &tcp);
    assert_eq!(verdict, Verdict::Drop);
    assert_eq!(
        event,
        Event::Blocked { rule: 0, addr: SocketAddress { ip: 0x0a000001, port: 443 } },
    );
    let other_port = ipv4_frame(0x0a000005, 0x0a000001, PROTO_TCP, Some((50000, 80)));
    assert_eq!(classify_frame(&t, &other_port).0, Verdict::Pass);
    let not_tcp = ipv4_frame(0x0a000005, 0x0a000001, 17, None);
    assert_eq!(classify_frame(&t, &not_tcp).0, Verdict::Pass, "port rules never see non-TCP");
}

#[test]
fn full_ring_refuses_the_event_and_the_verdict_stands() {
    let mut t = RuleTable::new();
    add_enabled(&mut t, Action::Drop, Match::Protocol(PROTO_ICMP), Direction::Source);
    let p = ipv4_frame(0x0a000005, 0x0a000001, PROTO_ICMP, None);
    let mut ring = EventRing::new(1);
    let (v1, logged1) = classify_and_log(&t, &mut ring, &p);
    assert_eq!(v1, Verdict::Drop);
    assert!(logged1);
    let (v2, logged2) = classify_and_log(&t, &mut ring, &p);
    assert_eq!(v2, Verdict::Drop, "classification proceeds without logging");
    assert!(!logged2, "a full ring refuses the reservation");
    let drained = ring.drain();
    assert_eq!(drained.len(), 1);
    assert_eq!(
        drained[0],
        Event::Blocked { rule: 0, addr: SocketAddress { ip: 0x0a000005, port: 0 } },
    );
}
