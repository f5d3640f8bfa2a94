//! Deterministic binary encoding of the shared schema records.
//!
//! Enums carry a 32-bit little-endian variant tag followed by the variant's
//! fields; structs are their fields in declaration order. The decoder
//! contracts follow the two directions described in [`crate::codec`].
use vstd::prelude::*;

use crate::codec::{
    enc_bool, enc_bytes, enc_i64, enc_u16, enc_u32, enc_u8, lemma_prefix_concat,
    lemma_prefix_split, prefix_at, put_bool, put_bytes, put_i64, put_u16, put_u32, put_u8,
    read_bool, read_bytes, read_i64, read_u16, read_u32, read_u8,
};
use crate::schema::{
    Action, Direction, Event, Match, Rule, SocketAddress, StoredEventDecoded, StoredRuleDecoded,
    StoredRuleView, Timestamp,
};

verus! {

pub open spec fn enc_action(v: Action) -> Seq<u8> {
    match v {
        Action::Accept => enc_u32(0),
        Action::Drop => enc_u32(1),
    }
}

pub open spec fn enc_direction(v: Direction) -> Seq<u8> {
    match v {
        Direction::Source => enc_u32(0),
        Direction::Destination => enc_u32(1),
    }
}

pub open spec fn enc_sockaddr(v: SocketAddress) -> Seq<u8> {
    enc_u32(v.ip) + enc_u16(v.port)
}

pub open spec fn enc_match(v: Match) -> Seq<u8> {
    match v {
        Match::Match(ip) => enc_u32(0) + enc_u32(ip),
        Match::Socket(sa) => enc_u32(1) + enc_sockaddr(sa),
        Match::Port(p) => enc_u32(2) + enc_u16(p),
        Match::Protocol(p) => enc_u32(3) + enc_u8(p),
    }
}

pub open spec fn enc_rule(v: Rule) -> Seq<u8> {
    enc_u32(v.id) + (enc_action(v.action) + (enc_match(v.matches) + (enc_direction(v.applies_to)
        + (enc_bool(v.enabled) + enc_bool(v.init)))))
}

pub open spec fn enc_event(v: Event) -> Seq<u8> {
    match v {
        Event::Pass => enc_u32(0),
        Event::Blocked { rule, addr } => enc_u32(1) + (enc_u32(rule) + enc_sockaddr(addr)),
    }
}

pub open spec fn enc_timestamp(v: Timestamp) -> Seq<u8> {
    enc_i64(v.micros)
}

pub open spec fn enc_stored_event(v: StoredEventDecoded) -> Seq<u8> {
    enc_timestamp(v.time) + enc_event(v.event)
}

pub open spec fn enc_stored_rule(v: StoredRuleView) -> Seq<u8> {
    enc_u32(v.id) + (enc_bytes(v.name) + (enc_bytes(v.description) + enc_rule(v.rule)))
}

pub fn put_action(v: &Action, out: &mut Vec<u8>)
    ensures
        final(out)@ == old(out)@ + enc_action(*v),
{
    match v {
        Action::Accept => put_u32(0, out),
        Action::Drop => put_u32(1, out),
    }
}

pub fn put_direction(v: &Direction, out: &mut Vec<u8>)
    ensures
        final(out)@ == old(out)@ + enc_direction(*v),
{
    match v {
        Direction::Source => put_u32(0, out),
        Direction::Destination => put_u32(1, out),
    }
}

pub fn put_sockaddr(v: &SocketAddress, out: &mut Vec<u8>)
    ensures
        final(out)@ == old(out)@ + enc_sockaddr(*v),
{
    put_u32(v.ip, out);
    put_u16(v.port, out);
    assert(out@ =~= old(out)@ + enc_sockaddr(*v));
}

pub fn put_match(v: &Match, out: &mut Vec<u8>)
    ensures
        final(out)@ == old(out)@ + enc_match(*v),
{
    match v {
        Match::Match(ip) => {
            put_u32(0, out);
            put_u32(*ip, out);
        },
        Match::Socket(sa) => {
            put_u32(1, out);
            put_sockaddr(sa, out);
        },
        Match::Port(p) => {
            put_u32(2, out);
            put_u16(*p, out);
        },
        Match::Protocol(p) => {
            put_u32(3, out);
            put_u8(*p, out);
        },
    }
    assert(out@ =~= old(out)@ + enc_match(*v));
}

pub fn put_rule(v: &Rule, out: &mut Vec<u8>)
    ensures
        final(out)@ == old(out)@ + enc_rule(*v),
{
    put_u32(v.id, out);
    put_action(&v.action, out);
    put_match(&v.matches, out);
    put_direction(&v.applies_to, out);
    put_bool(v.enabled, out);
    put_bool(v.init, out);
    assert(out@ =~= old(out)@ + enc_rule(*v));
}

pub fn put_event(v: &Event, out: &mut Vec<u8>)
    ensures
        final(out)@ == old(out)@ + enc_event(*v),
{
    match v {
        Event::Pass => put_u32(0, out),
        Event::Blocked { rule, addr } => {
            put_u32(1, out);
            put_u32(*rule, out);
            put_sockaddr(addr, out);
        },
    }
    assert(out@ =~= old(out)@ + enc_event(*v));
}

pub fn put_timestamp(v: &Timestamp, out: &mut Vec<u8>)
    ensures
        final(out)@ == old(out)@ + enc_timestamp(*v),
{
    put_i64(v.micros, out);
}

pub fn put_stored_event(v: &StoredEventDecoded, out: &mut Vec<u8>)
    ensures
        final(out)@ == old(out)@ + enc_stored_event(*v),
{
    put_timestamp(&v.time, out);
    put_event(&v.event, out);
    assert(out@ =~= old(out)@ + enc_stored_event(*v));
}

pub fn put_stored_rule(v: &StoredRuleDecoded, out: &mut Vec<u8>)
    ensures
        final(out)@ == old(out)@ + enc_stored_rule(v@),
{
    put_u32(v.id, out);
    put_bytes(&v.name, out);
    put_bytes(&v.description, out);
    put_rule(&v.rule, out);
    assert(out@ =~= old(out)@ + enc_stored_rule(v@));
}

pub fn read_action(buf: &Vec<u8>, pos: usize) -> (r: Option<(Action, usize)>)
    ensures
        r matches Some((v, end)) ==> pos <= end <= buf@.len() && prefix_at(
            buf@,
            pos as int,
            enc_action(v),
        ) && end == pos + enc_action(v).len(),
        forall|v: Action|
            prefix_at(buf@, pos as int, #[trigger] enc_action(v)) ==> (r matches Some((x, end))
                && x == v && end == pos + enc_action(v).len()),
{
    let tag = read_u32(buf, pos);
    match tag {
        Some((0, end)) => Some((Action::Accept, end)),
        Some((1, end)) => Some((Action::Drop, end)),
        _ => None,
    }
}

pub fn read_direction(buf: &Vec<u8>, pos: usize) -> (r: Option<(Direction, usize)>)
    ensures
        r matches Some((v, end)) ==> pos <= end <= buf@.len() && prefix_at(
            buf@,
            pos as int,
            enc_direction(v),
        ) && end == pos + enc_direction(v).len(),
        forall|v: Direction|
            prefix_at(buf@, pos as int, #[trigger] enc_direction(v)) ==> (r matches Some((x, end))
                && x == v && end == pos + enc_direction(v).len()),
{
    let tag = read_u32(buf, pos);
    match tag {
        Some((0, end)) => Some((Direction::Source, end)),
        Some((1, end)) => Some((Direction::Destination, end)),
        _ => None,
    }
}

pub fn read_sockaddr(buf: &Vec<u8>, pos: usize) -> (r: Option<(SocketAddress, usize)>)
    ensures
        r matches Some((v, end)) ==> pos <= end <= buf@.len() && prefix_at(
            buf@,
            pos as int,
            enc_sockaddr(v),
        ) && end == pos + enc_sockaddr(v).len(),
        forall|v: SocketAddress|
            prefix_at(buf@, pos as int, #[trigger] enc_sockaddr(v)) ==> (r matches Some((x, end))
                && x == v && end == pos + enc_sockaddr(v).len()),
{
    proof {
        assert forall|v: SocketAddress|
            prefix_at(buf@, pos as int, #[trigger] enc_sockaddr(v)) implies prefix_at(
            buf@,
            pos as int,
            enc_u32(v.ip),
        ) && prefix_at(buf@, pos + 4, enc_u16(v.port)) by {
            lemma_prefix_split(buf@, pos as int, enc_u32(v.ip), enc_u16(v.port));
        }
    }
    match read_u32(buf, pos) {
        Some((ip, p1)) => {
            match read_u16(buf, p1) {
                Some((port, p2)) => {
                    let v = SocketAddress { ip, port };
                    proof {
                        lemma_prefix_concat(buf@, pos as int, enc_u32(ip), enc_u16(port));
                    }
                    Some((v, p2))
                },
                None => None,
            }
        },
        None => None,
    }
}

pub fn read_match(buf: &Vec<u8>, pos: usize) -> (r: Option<(Match, usize)>)
    ensures
        r matches Some((v, end)) ==> pos <= end <= buf@.len() && prefix_at(
            buf@,
            pos as int,
            enc_match(v),
        ) && end == pos + enc_match(v).len(),
        forall|v: Match|
            prefix_at(buf@, pos as int, #[trigger] enc_match(v)) ==> (r matches Some((x, end))
                && x == v && end == pos + enc_match(v).len()),
{
    proof {
        assert forall|v: Match|
            prefix_at(buf@, pos as int, #[trigger] enc_match(v)) implies ({
            match v {
                Match::Match(ip) => prefix_at(buf@, pos as int, enc_u32(0)) && prefix_at(
                    buf@,
                    pos + 4,
                    enc_u32(ip),
                ),
                Match::Socket(sa) => prefix_at(buf@, pos as int, enc_u32(1)) && prefix_at(
                    buf@,
                    pos + 4,
                    enc_sockaddr(sa),
                ),
                Match::Port(p) => prefix_at(buf@, pos as int, enc_u32(2)) && prefix_at(
                    buf@,
                    pos + 4,
                    enc_u16(p),
                ),
                Match::Protocol(p) => prefix_at(buf@, pos as int, enc_u32(3)) && prefix_at(
                    buf@,
                    pos + 4,
                    enc_u8(p),
                ),
            }
        }) by {
            match v {
                Match::Match(ip) => {
                    lemma_prefix_split(buf@, pos as int, enc_u32(0), enc_u32(ip));
                },
                Match::Socket(sa) => {
                    lemma_prefix_split(buf@, pos as int, enc_u32(1), enc_sockaddr(sa));
                },
                Match::Port(p) => {
                    lemma_prefix_split(buf@, pos as int, enc_u32(2), enc_u16(p));
                },
                Match::Protocol(p) => {
                    lemma_prefix_split(buf@, pos as int, enc_u32(3), enc_u8(p));
                },
            }
        }
    }
    match read_u32(buf, pos) {
        Some((0, p1)) => {
            match read_u32(buf, p1) {
                Some((ip, p2)) => {
                    proof {
                        lemma_prefix_concat(buf@, pos as int, enc_u32(0), enc_u32(ip));
                    }
                    Some((Match::Match(ip), p2))
                },
                None => None,
            }
        },
        Some((1, p1)) => {
            match read_sockaddr(buf, p1) {
                Some((sa, p2)) => {
                    proof {
                        lemma_prefix_concat(buf@, pos as int, enc_u32(1), enc_sockaddr(sa));
                    }
                    Some((Match::Socket(sa), p2))
                },
                None => None,
            }
        },
        Some((2, p1)) => {
            match read_u16(buf, p1) {
                Some((p, p2)) => {
                    proof {
                        lemma_prefix_concat(buf@, pos as int, enc_u32(2), enc_u16(p));
                    }
                    Some((Match::Port(p), p2))
                },
                None => None,
            }
        },
        Some((3, p1)) => {
            match read_u8(buf, p1) {
                Some((p, p2)) => {
                    proof {
                        lemma_prefix_concat(buf@, pos as int, enc_u32(3), enc_u8(p));
                    }
                    Some((Match::Protocol(p), p2))
                },
                None => None,
            }
        },
        _ => None,
    }
}

#[verifier::rlimit(80)]
pub fn read_rule(buf: &Vec<u8>, pos: usize) -> (r: Option<(Rule, usize)>)
    ensures
        r matches Some((v, end)) ==> pos <= end <= buf@.len() && prefix_at(
            buf@,
            pos as int,
            enc_rule(v),
        ) && end == pos + enc_rule(v).len(),
        forall|v: Rule|
            prefix_at(buf@, pos as int, #[trigger] enc_rule(v)) ==> (r matches Some((x, end))
                && x == v && end == pos + enc_rule(v).len()),
{
    proof {
        assert forall|v: Rule|
            prefix_at(buf@, pos as int, #[trigger] enc_rule(v)) implies ({
            &&& prefix_at(buf@, pos as int, enc_u32(v.id))
            &&& prefix_at(buf@, pos + 4, enc_action(v.action))
            &&& prefix_at(buf@, pos + 4 + enc_action(v.action).len(), enc_match(v.matches))
            &&& prefix_at(
                buf@,
                pos + 4 + enc_action(v.action).len() + enc_match(v.matches).len(),
                enc_direction(v.applies_to),
            )
            &&& prefix_at(
                buf@,
                pos + 4 + enc_action(v.action).len() + enc_match(v.matches).len()
                    + enc_direction(v.applies_to).len(),
                enc_bool(v.enabled),
            )
            &&& prefix_at(
                buf@,
                pos + 4 + enc_action(v.action).len() + enc_match(v.matches).len()
                    + enc_direction(v.applies_to).len() + 1,
                enc_bool(v.init),
            )
        }) by {
            let rest1 = enc_action(v.action) + (enc_match(v.matches) + (enc_direction(v.applies_to)
                + (enc_bool(v.enabled) + enc_bool(v.init))));
            lemma_prefix_split(buf@, pos as int, enc_u32(v.id), rest1);
            let rest2 = enc_match(v.matches) + (enc_direction(v.applies_to) + (enc_bool(v.enabled)
                + enc_bool(v.init)));
            lemma_prefix_split(buf@, pos + 4, enc_action(v.action), rest2);
            let rest3 = enc_direction(v.applies_to) + (enc_bool(v.enabled) + enc_bool(v.init));
            lemma_prefix_split(buf@, pos + 4 + enc_action(v.action).len(), enc_match(v.matches), rest3);
            let rest4 = enc_bool(v.enabled) + enc_bool(v.init);
            lemma_prefix_split(
                buf@,
                pos + 4 + enc_action(v.action).len() + enc_match(v.matches).len(),
                enc_direction(v.applies_to),
                rest4,
            );
            lemma_prefix_split(
                buf@,
                pos + 4 + enc_action(v.action).len() + enc_match(v.matches).len()
                    + enc_direction(v.applies_to).len(),
                enc_bool(v.enabled),
                enc_bool(v.init),
            );
        }
    }
    let r_id = read_u32(buf, pos);
    match r_id {
        Some((id, p1)) => {
            let r_action = read_action(buf, p1);
            match r_action {
                Some((action, p2)) => {
                    let r_match = read_match(buf, p2);
                    match r_match {
                        Some((matches, p3)) => {
                            let r_dir = read_direction(buf, p3);
                            match r_dir {
                                Some((applies_to, p4)) => {
                                    let r_en = read_bool(buf, p4);
                                    match r_en {
                                        Some((enabled, p5)) => {
                                            let r_init = read_bool(buf, p5);
                                            match r_init {
                                                Some((init, p6)) => {
                                                    let v = Rule {
                                                        id,
                                                        action,
                                                        matches,
                                                        applies_to,
                                                        enabled,
                                                        init,
                                                    };
                                                    proof {
                                                        lemma_prefix_concat(
                                                            buf@,
                                                            p4 as int,
                                                            enc_bool(enabled),
                                                            enc_bool(init),
                                                        );
                                                        lemma_prefix_concat(
                                                            buf@,
                                                            p3 as int,
                                                            enc_direction(applies_to),
                                                            enc_bool(enabled) + enc_bool(init),
                                                        );
                                                        lemma_prefix_concat(
                                                            buf@,
                                                            p2 as int,
                                                            enc_match(matches),
                                                            enc_direction(applies_to) + (enc_bool(
                                                                enabled,
                                                            ) + enc_bool(init)),
                                                        );
                                                        lemma_prefix_concat(
                                                            buf@,
                                                            p1 as int,
                                                            enc_action(action),
                                                            enc_match(matches) + (enc_direction(
                                                                applies_to,
                                                            ) + (enc_bool(enabled) + enc_bool(
                                                                init,
                                                            ))),
                                                        );
                                                        lemma_prefix_concat(
                                                            buf@,
                                                            pos as int,
                                                            enc_u32(id),
                                                            enc_action(action) + (enc_match(
                                                                matches,
                                                            ) + (enc_direction(applies_to) + (
                                                            enc_bool(enabled) + enc_bool(init)))),
                                                        );
                                                    }
                                                    Some((v, p6))
                                                },
                                                None => None,
                                            }
                                        },
                                        None => None,
                                    }
                                },
                                None => None,
                            }
                        },
                        None => None,
                    }
                },
                None => None,
            }
        },
        None => None,
    }
}

pub fn read_event(buf: &Vec<u8>, pos: usize) -> (r: Option<(Event, usize)>)
    ensures
        r matches Some((v, end)) ==> pos <= end <= buf@.len() && prefix_at(
            buf@,
            pos as int,
            enc_event(v),
        ) && end == pos + enc_event(v).len(),
        forall|v: Event|
            prefix_at(buf@, pos as int, #[trigger] enc_event(v)) ==> (r matches Some((x, end))
                && x == v && end == pos + enc_event(v).len()),
{
    proof {
        assert forall|v: Event|
            prefix_at(buf@, pos as int, #[trigger] enc_event(v)) implies ({
            match v {
                Event::Pass => prefix_at(buf@, pos as int, enc_u32(0)),
                Event::Blocked { rule, addr } => prefix_at(buf@, pos as int, enc_u32(1))
                    && prefix_at(buf@, pos + 4, enc_u32(rule)) && prefix_at(
                    buf@,
                    pos + 8,
                    enc_sockaddr(addr),
                ),
            }
        }) by {
            match v {
                Event::Pass => {},
                Event::Blocked { rule, addr } => {
                    lemma_prefix_split(
                        buf@,
                        pos as int,
                        enc_u32(1),
                        enc_u32(rule) + enc_sockaddr(addr),
                    );
                    lemma_prefix_split(buf@, pos + 4, enc_u32(rule), enc_sockaddr(addr));
                },
            }
        }
    }
    match read_u32(buf, pos) {
        Some((0, p1)) => Some((Event::Pass, p1)),
        Some((1, p1)) => {
            match read_u32(buf, p1) {
                Some((rule, p2)) => {
                    match read_sockaddr(buf, p2) {
                        Some((addr, p3)) => {
                            proof {
                                lemma_prefix_concat(
                                    buf@,
                                    p1 as int,
                                    enc_u32(rule),
                                    enc_sockaddr(addr),
                                );
                                lemma_prefix_concat(
                                    buf@,
                                    pos as int,
                                    enc_u32(1),
                                    enc_u32(rule) + enc_sockaddr(addr),
                                );
                            }
                            Some((Event::Blocked { rule, addr }, p3))
                        },
                        None => None,
                    }
                },
                None => None,
            }
        },
        _ => None,
    }
}

pub fn read_timestamp(buf: &Vec<u8>, pos: usize) -> (r: Option<(Timestamp, usize)>)
    ensures
        r matches Some((v, end)) ==> pos <= end <= buf@.len() && prefix_at(
            buf@,
            pos as int,
            enc_timestamp(v),
        ) && end == pos + enc_timestamp(v).len(),
        forall|v: Timestamp|
            prefix_at(buf@, pos as int, #[trigger] enc_timestamp(v)) ==> (r matches Some((x, end))
                && x == v && end == pos + enc_timestamp(v).len()),
{
    match read_i64(buf, pos) {
        Some((micros, p1)) => Some((Timestamp { micros }, p1)),
        None => None,
    }
}

pub fn read_stored_event(buf: &Vec<u8>, pos: usize) -> (r: Option<(StoredEventDecoded, usize)>)
    ensures
        r matches Some((v, end)) ==> pos <= end <= buf@.len() && prefix_at(
            buf@,
            pos as int,
            enc_stored_event(v),
        ) && end == pos + enc_stored_event(v).len(),
        forall|v: StoredEventDecoded|
            prefix_at(buf@, pos as int, #[trigger] enc_stored_event(v)) ==> (r matches Some(
                (x, end),
            ) && x == v && end == pos + enc_stored_event(v).len()),
{
    proof {
        assert forall|v: StoredEventDecoded|
            prefix_at(buf@, pos as int, #[trigger] enc_stored_event(v)) implies prefix_at(
            buf@,
            pos as int,
            enc_timestamp(v.time),
        ) && prefix_at(buf@, pos + 8, enc_event(v.event)) by {
            lemma_prefix_split(buf@, pos as int, enc_timestamp(v.time), enc_event(v.event));
        }
    }
    match read_timestamp(buf, pos) {
        Some((time, p1)) => {
            match read_event(buf, p1) {
                Some((event, p2)) => {
                    proof {
                        lemma_prefix_concat(buf@, pos as int, enc_timestamp(time), enc_event(event));
                    }
                    Some((StoredEventDecoded { time, event }, p2))
                },
                None => None,
            }
        },
        None => None,
    }
}

pub fn read_stored_rule(buf: &Vec<u8>, pos: usize) -> (r: Option<(StoredRuleDecoded, usize)>)
    ensures
        r matches Some((v, end)) ==> pos <= end <= buf@.len() && prefix_at(
            buf@,
            pos as int,
            enc_stored_rule(v@),
        ) && end == pos + enc_stored_rule(v@).len(),
        forall|v: StoredRuleView|
            prefix_at(buf@, pos as int, #[trigger] enc_stored_rule(v)) ==> (r matches Some(
                (x, end),
            ) && x@ == v && end == pos + enc_stored_rule(v).len()),
{
    proof {
        assert forall|v: StoredRuleView|
            prefix_at(buf@, pos as int, #[trigger] enc_stored_rule(v)) implies ({
            &&& prefix_at(buf@, pos as int, enc_u32(v.id))
            &&& prefix_at(buf@, pos + 4, enc_bytes(v.name))
            &&& prefix_at(buf@, pos + 4 + enc_bytes(v.name).len(), enc_bytes(v.description))
            &&& prefix_at(
                buf@,
                pos + 4 + enc_bytes(v.name).len() + enc_bytes(v.description).len(),
                enc_rule(v.rule),
            )
        }) by {
            let rest1 = enc_bytes(v.name) + (enc_bytes(v.description) + enc_rule(v.rule));
            lemma_prefix_split(buf@, pos as int, enc_u32(v.id), rest1);
            let rest2 = enc_bytes(v.description) + enc_rule(v.rule);
            lemma_prefix_split(buf@, pos + 4, enc_bytes(v.name), rest2);
            lemma_prefix_split(
                buf@,
                pos + 4 + enc_bytes(v.name).len(),
                enc_bytes(v.description),
                enc_rule(v.rule),
            );
        }
    }
    let r_id = read_u32(buf, pos);
    match r_id {
        Some((id, p1)) => {
            let r_name = read_bytes(buf, p1);
            match r_name {
                Some((name, p2)) => {
                    let r_desc = read_bytes(buf, p2);
                    match r_desc {
                        Some((description, p3)) => {
                            let r_rule = read_rule(buf, p3);
                            match r_rule {
                                Some((rule, p4)) => {
                                    let v = StoredRuleDecoded { id, name, description, rule };
                                    proof {
                                        lemma_prefix_concat(
                                            buf@,
                                            p2 as int,
                                            enc_bytes(v@.description),
                                            enc_rule(v@.rule),
                                        );
                                        lemma_prefix_concat(
                                            buf@,
                                            p1 as int,
                                            enc_bytes(v@.name),
                                            enc_bytes(v@.description) + enc_rule(v@.rule),
                                        );
                                        lemma_prefix_concat(
                                            buf@,
                                            pos as int,
                                            enc_u32(v@.id),
                                            enc_bytes(v@.name) + (enc_bytes(v@.description)
                                                + enc_rule(v@.rule)),
                                        );
                                    }
                                    Some((v, p4))
                                },
                                None => None,
                            }
                        },
                        None => None,
                    }
                },
                None => None,
            }
        },
        None => None,
    }
}

} // verus!
