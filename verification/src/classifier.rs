//! The packet classifier: the decision logic of the in-kernel program.
//!
//! For each ingress frame it parses the Ethernet and IPv4 headers, walks
//! the rule table in ascending slot order, and returns a verdict together
//! with the observation event to enqueue. Address and protocol rules are
//! tested first; port rules need the transport header and are tested in a
//! second pass reached only for TCP, mirroring the tail-called
//! protocol-specific program. The first matching enabled rule wins.
use vstd::prelude::*;

use crate::schema::{Action, Direction, Event, Match, Rule, SocketAddress};

verus! {

/// Verdict codes of the packet hook.
#[derive(Clone, Copy, Debug, PartialEq, Eq, Structural)]
pub enum Verdict {
    Pass,
    Drop,
    Aborted,
}

pub const ETHERTYPE_IPV4: u16 = 0x0800;

pub const PROTO_TCP: u8 = 6;

pub open spec fn be16(b0: u8, b1: u8) -> u16 {
    ((b0 as u16) << 8) | (b1 as u16)
}

pub open spec fn be32(b0: u8, b1: u8, b2: u8, b3: u8) -> u32 {
    ((b0 as u32) << 24) | ((b1 as u32) << 16) | ((b2 as u32) << 8) | (b3 as u32)
}

/// The Ethernet header occupies bytes `[0, 14)`; its ethertype is
/// big-endian at offset 12.
pub open spec fn eth_ok(p: Seq<u8>) -> bool {
    p.len() >= 14
}

pub open spec fn eth_type_of(p: Seq<u8>) -> u16 {
    be16(p[12], p[13])
}

/// The IPv4 header starts at offset 14: version nibble 4, a header length
/// of at least 20 bytes given by the low nibble in 32-bit words, the
/// protocol at relative offset 9, source and destination addresses
/// big-endian at relative offsets 12 and 16.
pub open spec fn ipv4_ihl(p: Seq<u8>) -> int {
    (p[14] & 0x0f) * 4
}

pub open spec fn ipv4_ok(p: Seq<u8>) -> bool {
    &&& p.len() >= 34
    &&& (p[14] >> 4) == 4
    &&& ipv4_ihl(p) >= 20
    &&& p.len() >= 14 + ipv4_ihl(p)
}

pub open spec fn ipv4_proto(p: Seq<u8>) -> u8 {
    p[23]
}

pub open spec fn ipv4_src(p: Seq<u8>) -> u32 {
    be32(p[26], p[27], p[28], p[29])
}

pub open spec fn ipv4_dst(p: Seq<u8>) -> u32 {
    be32(p[30], p[31], p[32], p[33])
}

/// The TCP header follows the IPv4 header and must have room for its
/// 20-byte minimum; source and destination ports sit big-endian at its
/// first four bytes.
pub open spec fn tcp_ok(p: Seq<u8>) -> bool {
    &&& ipv4_ok(p)
    &&& p.len() >= 14 + ipv4_ihl(p) + 20
}

pub open spec fn tcp_src_port(p: Seq<u8>) -> u16 {
    be16(p[14 + ipv4_ihl(p)], p[14 + ipv4_ihl(p) + 1])
}

pub open spec fn tcp_dst_port(p: Seq<u8>) -> u16 {
    be16(p[14 + ipv4_ihl(p) + 2], p[14 + ipv4_ihl(p) + 3])
}

/// The address of the packet side a rule applies to.
pub open spec fn tested_ip(r: Rule, src: u32, dst: u32) -> u32 {
    if r.applies_to == Direction::Source {
        src
    } else {
        dst
    }
}

/// Whether an enabled, occupied slot matches the network-layer facts of a
/// packet: its protocol, or the address of the tested side. Port and
/// socket rules need the transport header and do not match here.
pub open spec fn rule_matches_ip(r: Rule, src: u32, dst: u32, proto: u8) -> bool {
    &&& r.init
    &&& r.enabled
    &&& match r.matches {
        Match::Protocol(p) => p == proto,
        Match::Match(a) => a == tested_ip(r, src, dst),
        Match::Socket(_) => false,
        Match::Port(_) => false,
    }
}

/// Whether an enabled, occupied slot matches the TCP port of the tested
/// side.
pub open spec fn rule_matches_port(r: Rule, sport: u16, dport: u16) -> bool {
    &&& r.init
    &&& r.enabled
    &&& match r.matches {
        Match::Port(p) => p == (
        if r.applies_to == Direction::Source {
            sport
        } else {
            dport
        }),
        _ => false,
    }
}

/// The lowest slot index at or after `i` whose rule matches at the network
/// layer. Lower indices have priority.
pub open spec fn first_match_ip(t: Seq<Rule>, src: u32, dst: u32, proto: u8, i: int) -> Option<
    int,
>
    decreases t.len() - i,
{
    if i < 0 || i >= t.len() {
        None
    } else if rule_matches_ip(t[i], src, dst, proto) {
        Some(i)
    } else {
        first_match_ip(t, src, dst, proto, i + 1)
    }
}

/// The lowest slot index at or after `i` whose rule matches the TCP ports.
pub open spec fn first_match_port(t: Seq<Rule>, sport: u16, dport: u16, i: int) -> Option<int>
    decreases t.len() - i,
{
    if i < 0 || i >= t.len() {
        None
    } else if rule_matches_port(t[i], sport, dport) {
        Some(i)
    } else {
        first_match_port(t, sport, dport, i + 1)
    }
}

/// Verdict and observation for a matched rule: a dropping rule drops the
/// packet and reports the blocked socket; an accepting rule passes it with
/// an unremarkable observation.
pub open spec fn matched_outcome(r: Rule, i: int, addr: SocketAddress) -> (Verdict, Event) {
    match r.action {
        Action::Drop => (Verdict::Drop, Event::Blocked { rule: i as u32, addr }),
        Action::Accept => (Verdict::Pass, Event::Pass),
    }
}

/// The classifier as a pure function of the rule table and the frame
/// bytes: verdict, and the event offered to the ring.
///
/// A frame too short for an Ethernet header, or with a malformed IPv4 or
/// expected TCP header, is aborted. A non-IPv4 frame passes untouched.
/// Otherwise the first matching enabled rule decides; with no match at the
/// network layer, a TCP frame is additionally tested against port rules,
/// and a packet no enabled rule matches passes.
pub open spec fn spec_classify(t: Seq<Rule>, p: Seq<u8>) -> (Verdict, Event) {
    if !eth_ok(p) {
        (Verdict::Aborted, Event::Pass)
    } else if eth_type_of(p) != ETHERTYPE_IPV4 {
        (Verdict::Pass, Event::Pass)
    } else if !ipv4_ok(p) {
        (Verdict::Aborted, Event::Pass)
    } else {
        let src = ipv4_src(p);
        let dst = ipv4_dst(p);
        let proto = ipv4_proto(p);
        match first_match_ip(t, src, dst, proto, 0) {
            Some(i) => matched_outcome(
                t[i],
                i,
                SocketAddress { ip: tested_ip(t[i], src, dst), port: 0 },
            ),
            None => {
                if proto == PROTO_TCP {
                    if !tcp_ok(p) {
                        (Verdict::Aborted, Event::Pass)
                    } else {
                        let sport = tcp_src_port(p);
                        let dport = tcp_dst_port(p);
                        match first_match_port(t, sport, dport, 0) {
                            Some(i) => matched_outcome(
                                t[i],
                                i,
                                SocketAddress {
                                    ip: tested_ip(t[i], src, dst),
                                    port: if t[i].applies_to == Direction::Source {
                                        sport
                                    } else {
                                        dport
                                    },
                                },
                            ),
                            None => (Verdict::Pass, Event::Pass),
                        }
                    }
                } else {
                    (Verdict::Pass, Event::Pass)
                }
            },
        }
    }
}

/// Classify one frame against the table.
pub fn classify_frame(t: &crate::table::RuleTable, p: &Vec<u8>) -> (r: (Verdict, Event))
    ensures
        r == spec_classify(t@, p@),
{
    if p.len() < 14 {
        return (Verdict::Aborted, Event::Pass);
    }
    let ethertype: u16 = ((p[12] as u16) << 8) | (p[13] as u16);
    if ethertype != ETHERTYPE_IPV4 {
        return (Verdict::Pass, Event::Pass);
    }
    if p.len() < 34 {
        return (Verdict::Aborted, Event::Pass);
    }
    let ihl: usize = ((p[14] & 0x0f) as usize) * 4;
    if (p[14] >> 4) != 4 || ihl < 20 || p.len() < 14 + ihl {
        return (Verdict::Aborted, Event::Pass);
    }
    let proto: u8 = p[23];
    let src: u32 = ((p[26] as u32) << 24) | ((p[27] as u32) << 16) | ((p[28] as u32) << 8) | (
    p[29] as u32);
    let dst: u32 = ((p[30] as u32) << 24) | ((p[31] as u32) << 16) | ((p[32] as u32) << 8) | (
    p[33] as u32);
    let n = t.slots.len();
    let mut i: usize = 0;
    while i < n
        invariant
            n == t@.len(),
            i <= n,
            first_match_ip(t@, src, dst, proto, 0) == first_match_ip(t@, src, dst, proto, i as int),
            eth_ok(p@) && eth_type_of(p@) == ETHERTYPE_IPV4 && ipv4_ok(p@),
            proto == ipv4_proto(p@) && src == ipv4_src(p@) && dst == ipv4_dst(p@),
        decreases n - i,
    {
        let r = t.slots[i];
        if r.init && r.enabled {
            let matched = match r.matches {
                Match::Protocol(mp) => mp == proto,
                Match::Match(a) => {
                    let side = if matches!(r.applies_to, Direction::Source) {
                        src
                    } else {
                        dst
                    };
                    a == side
                },
                _ => false,
            };
            if matched {
                let ip = if matches!(r.applies_to, Direction::Source) {
                    src
                } else {
                    dst
                };
                let addr = SocketAddress { ip, port: 0 };
                let out = match r.action {
                    Action::Drop => (Verdict::Drop, Event::Blocked { rule: i as u32, addr }),
                    Action::Accept => (Verdict::Pass, Event::Pass),
                };
                return out;
            }
        }
        i = i + 1;
    }
    if proto != PROTO_TCP {
        return (Verdict::Pass, Event::Pass);
    }
    if p.len() < 14 + ihl + 20 {
        return (Verdict::Aborted, Event::Pass);
    }
    let sport: u16 = ((p[14 + ihl] as u16) << 8) | (p[14 + ihl + 1] as u16);
    let dport: u16 = ((p[14 + ihl + 2] as u16) << 8) | (p[14 + ihl + 3] as u16);
    let mut i: usize = 0;
    while i < n
        invariant
            n == t@.len(),
            i <= n,
            first_match_port(t@, sport, dport, 0) == first_match_port(t@, sport, dport, i as int),
            first_match_ip(t@, src, dst, proto, 0) is None,
            sport == tcp_src_port(p@) && dport == tcp_dst_port(p@),
            tcp_ok(p@) && proto == ipv4_proto(p@) && src == ipv4_src(p@) && dst == ipv4_dst(p@),
            eth_ok(p@) && eth_type_of(p@) == ETHERTYPE_IPV4 && ipv4_ok(p@) && proto == PROTO_TCP,
        decreases n - i,
    {
        let r = t.slots[i];
        if r.init && r.enabled {
            if let Match::Port(mp) = r.matches {
                let side = if matches!(r.applies_to, Direction::Source) {
                    sport
                } else {
                    dport
                };
                if mp == side {
                    let ip = if matches!(r.applies_to, Direction::Source) {
                        src
                    } else {
                        dst
                    };
                    let addr = SocketAddress { ip, port: side };
                    let out = match r.action {
                        Action::Drop => (Verdict::Drop, Event::Blocked { rule: i as u32, addr }),
                        Action::Accept => (Verdict::Pass, Event::Pass),
                    };
                    return out;
                }
            }
        }
        i = i + 1;
    }
    (Verdict::Pass, Event::Pass)
}

/// Slots that decide classification look the same in two tables: each slot
/// is enabled-and-occupied in one exactly when in the other, and such
/// slots hold the same rule.
pub open spec fn same_active(t1: Seq<Rule>, t2: Seq<Rule>) -> bool {
    &&& t1.len() == t2.len()
    &&& forall|i: int|
        0 <= i < t1.len() ==> (((#[trigger] t1[i]).init && t1[i].enabled) == ((
        #[trigger] t2[i]).init && t2[i].enabled) && (t1[i].init && t1[i].enabled ==> t1[i]
            == t2[i]))
}

/// What a network-layer first match reports: an index in range whose rule
/// matches, with no matching rule before it.
pub proof fn lemma_first_match_ip_props(t: Seq<Rule>, src: u32, dst: u32, proto: u8, i: int)
    requires
        0 <= i,
    ensures
        match first_match_ip(t, src, dst, proto, i) {
            Some(j) => i <= j < t.len() && rule_matches_ip(t[j], src, dst, proto) && (forall|k: int|
                i <= k < j ==> !rule_matches_ip(#[trigger] t[k], src, dst, proto)),
            None => forall|k: int|
                i <= k < t.len() ==> !rule_matches_ip(#[trigger] t[k], src, dst, proto),
        },
    decreases t.len() - i,
{
    if 0 <= i < t.len() {
        lemma_first_match_ip_props(t, src, dst, proto, i + 1);
    }
}

/// What a transport-layer first match reports, in the same way.
pub proof fn lemma_first_match_port_props(t: Seq<Rule>, sport: u16, dport: u16, i: int)
    requires
        0 <= i,
    ensures
        match first_match_port(t, sport, dport, i) {
            Some(j) => i <= j < t.len() && rule_matches_port(t[j], sport, dport) && (forall|k: int|
                i <= k < j ==> !rule_matches_port(#[trigger] t[k], sport, dport)),
            None => forall|k: int|
                i <= k < t.len() ==> !rule_matches_port(#[trigger] t[k], sport, dport),
        },
    decreases t.len() - i,
{
    if 0 <= i < t.len() {
        lemma_first_match_port_props(t, sport, dport, i + 1);
    }
}

proof fn lemma_first_match_ip_same_active(
    t1: Seq<Rule>,
    t2: Seq<Rule>,
    src: u32,
    dst: u32,
    proto: u8,
    i: int,
)
    requires
        same_active(t1, t2),
    ensures
        first_match_ip(t1, src, dst, proto, i) == first_match_ip(t2, src, dst, proto, i),
    decreases t1.len() - i,
{
    if 0 <= i < t1.len() {
        lemma_first_match_ip_same_active(t1, t2, src, dst, proto, i + 1);
    }
}

proof fn lemma_first_match_port_same_active(
    t1: Seq<Rule>,
    t2: Seq<Rule>,
    sport: u16,
    dport: u16,
    i: int,
)
    requires
        same_active(t1, t2),
    ensures
        first_match_port(t1, sport, dport, i) == first_match_port(t2, sport, dport, i),
    decreases t1.len() - i,
{
    if 0 <= i < t1.len() {
        lemma_first_match_port_same_active(t1, t2, sport, dport, i + 1);
    }
}

/// The verdict and the event are a pure function of the enabled, occupied
/// slots: tables that agree on those classify every frame alike, whatever
/// their free and disabled slots hold.
pub proof fn lemma_classify_depends_on_active(t1: Seq<Rule>, t2: Seq<Rule>, p: Seq<u8>)
    requires
        same_active(t1, t2),
    ensures
        spec_classify(t1, p) == spec_classify(t2, p),
{
    if eth_ok(p) && eth_type_of(p) == ETHERTYPE_IPV4 && ipv4_ok(p) {
        let src = ipv4_src(p);
        let dst = ipv4_dst(p);
        let proto = ipv4_proto(p);
        lemma_first_match_ip_same_active(t1, t2, src, dst, proto, 0);
        lemma_first_match_ip_props(t1, src, dst, proto, 0);
        if first_match_ip(t1, src, dst, proto, 0) is None && proto == PROTO_TCP && tcp_ok(p) {
            lemma_first_match_port_same_active(t1, t2, tcp_src_port(p), tcp_dst_port(p), 0);
            lemma_first_match_port_props(t1, tcp_src_port(p), tcp_dst_port(p), 0);
        }
    }
}

/// A free slot is ignored entirely: whatever is written in it, as long as
/// it stays free, classification of every frame is unchanged.
pub proof fn lemma_free_slot_ignored(t: Seq<Rule>, i: int, r2: Rule, p: Seq<u8>)
    requires
        0 <= i < t.len(),
        !t[i].init,
        !r2.init,
    ensures
        spec_classify(t.update(i, r2), p) == spec_classify(t, p),
{
    lemma_classify_depends_on_active(t.update(i, r2), t, p);
}

/// A disabled slot is ignored in the same way.
pub proof fn lemma_disabled_slot_ignored(t: Seq<Rule>, i: int, r2: Rule, p: Seq<u8>)
    requires
        0 <= i < t.len(),
        !t[i].enabled,
        !r2.enabled,
    ensures
        spec_classify(t.update(i, r2), p) == spec_classify(t, p),
{
    lemma_classify_depends_on_active(t.update(i, r2), t, p);
}

/// The bounded event ring shared by the classifier and the ingester. A
/// full ring refuses the offered entry; the classifier goes on regardless.
pub struct EventRing {
    pub entries: Vec<Event>,
    pub capacity: usize,
}

impl EventRing {
    pub fn new(capacity: usize) -> (r: EventRing)
        ensures
            r.entries@ == Seq::<Event>::empty(),
            r.capacity == capacity,
    {
        EventRing { entries: Vec::new(), capacity }
    }

    /// Offer one entry; a full ring refuses it and stays as it is.
    pub fn try_push(&mut self, e: Event) -> (accepted: bool)
        ensures
            accepted == (old(self).entries@.len() < old(self).capacity),
            accepted ==> final(self).entries@ == old(self).entries@.push(e),
            !accepted ==> final(self).entries@ == old(self).entries@,
            final(self).capacity == old(self).capacity,
    {
        if self.entries.len() < self.capacity {
            self.entries.push(e);
            true
        } else {
            false
        }
    }

    /// Take every queued entry, leaving the ring empty.
    pub fn drain(&mut self) -> (r: Vec<Event>)
        ensures
            r@ == old(self).entries@,
            final(self).entries@ == Seq::<Event>::empty(),
            final(self).capacity == old(self).capacity,
    {
        let mut out: Vec<Event> = Vec::new();
        core::mem::swap(&mut out, &mut self.entries);
        out
    }
}

/// Classify one frame and offer its observation to the ring. The verdict
/// never depends on whether the ring had room.
pub fn classify_and_log(t: &crate::table::RuleTable, ring: &mut EventRing, p: &Vec<u8>) -> (r: (
    Verdict,
    bool,
))
    ensures
        r.0 == spec_classify(t@, p@).0,
        r.1 == (old(ring).entries@.len() < old(ring).capacity),
        r.1 ==> final(ring).entries@ == old(ring).entries@.push(spec_classify(t@, p@).1),
        !r.1 ==> final(ring).entries@ == old(ring).entries@,
        final(ring).capacity == old(ring).capacity,
{
    let (verdict, event) = classify_frame(t, p);
    let accepted = ring.try_push(event);
    (verdict, accepted)
}

} // verus!
