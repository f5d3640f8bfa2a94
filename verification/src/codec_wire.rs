//! Deterministic binary encoding of the wire records: requests, responses,
//! top-level messages and event-stream records, plus the length framing
//! that delimits one record on the byte stream.
//!
//! Lists travel as a 64-bit count followed by the encodings of their items.
use vstd::prelude::*;

use crate::codec::{
    enc_bytes, enc_u32, enc_u64, lemma_prefix_concat, lemma_prefix_split, prefix_at, put_bytes,
    put_u32, put_u64, read_bytes, read_u32, read_u64,
};
use crate::codec_schema::{
    enc_rule, enc_stored_event, enc_stored_rule, enc_timestamp, put_rule, put_stored_event,
    put_stored_rule, put_timestamp, read_rule, read_stored_event, read_stored_rule, read_timestamp,
};
use crate::schema::{StoredEventDecoded, StoredRuleDecoded, StoredRuleView};
use crate::wire::{
    rule_views, EventQuery, Log, LogKind, Message, MessageView, Request, RequestView, Response,
    ResponseView, RuleChange, RuleStatus, Status,
};

verus! {

/// The encodings of a sequence of items, back to back.
pub open spec fn enc_items<T>(f: spec_fn(T) -> Seq<u8>, s: Seq<T>) -> Seq<u8>
    decreases s.len(),
{
    if s.len() == 0 {
        Seq::empty()
    } else {
        f(s[0]) + enc_items(f, s.skip(1))
    }
}

pub proof fn lemma_enc_items_concat<T>(f: spec_fn(T) -> Seq<u8>, a: Seq<T>, b: Seq<T>)
    ensures
        enc_items(f, a + b) == enc_items(f, a) + enc_items(f, b),
    decreases a.len(),
{
    if a.len() == 0 {
        assert(a + b =~= b);
        assert(enc_items(f, a) + enc_items(f, b) =~= enc_items(f, b));
    } else {
        assert((a + b).skip(1) =~= a.skip(1) + b);
        lemma_enc_items_concat(f, a.skip(1), b);
        assert((a + b).len() != 0 && (a + b)[0] == a[0]);
        assert(f(a[0]) + (enc_items(f, a.skip(1)) + enc_items(f, b)) =~= (f(a[0]) + enc_items(
            f,
            a.skip(1),
        )) + enc_items(f, b));
    }
}

pub proof fn lemma_enc_items_push<T>(f: spec_fn(T) -> Seq<u8>, s: Seq<T>, x: T)
    ensures
        enc_items(f, s.push(x)) == enc_items(f, s) + f(x),
{
    let single = seq![x];
    assert(s.push(x) =~= s + single);
    lemma_enc_items_concat(f, s, single);
    assert(single.skip(1) =~= Seq::<T>::empty());
    assert(enc_items(f, single) == f(single[0]) + enc_items(f, single.skip(1)));
    assert(f(x) + Seq::<u8>::empty() =~= f(x));
}

/// The encodings of items `[0, i)` followed by those of items `[i, len)`
/// make the whole, and the tail starts with item `i`.
pub proof fn lemma_enc_items_at<T>(f: spec_fn(T) -> Seq<u8>, s: Seq<T>, i: int)
    requires
        0 <= i < s.len(),
    ensures
        enc_items(f, s) == enc_items(f, s.take(i)) + (f(s[i]) + enc_items(f, s.skip(i + 1))),
{
    assert(s =~= s.take(i) + s.skip(i));
    lemma_enc_items_concat(f, s.take(i), s.skip(i));
    assert(s.skip(i).len() != 0);
    assert(s.skip(i)[0] == s[i]);
    assert(s.skip(i).skip(1) =~= s.skip(i + 1));
}


/// A list whose every item encodes to at least one byte is at least as long
/// in bytes as in items.
pub proof fn lemma_enc_items_len_lower<T>(f: spec_fn(T) -> Seq<u8>, s: Seq<T>)
    requires
        forall|x: T| (#[trigger] f(x)).len() >= 1,
    ensures
        enc_items(f, s).len() >= s.len(),
    decreases s.len(),
{
    if s.len() != 0 {
        lemma_enc_items_len_lower(f, s.skip(1));
    }
}

pub open spec fn enc_stored_rule_fn() -> spec_fn(StoredRuleView) -> Seq<u8> {
    |v: StoredRuleView| enc_stored_rule(v)
}

pub open spec fn enc_stored_event_fn() -> spec_fn(StoredEventDecoded) -> Seq<u8> {
    |v: StoredEventDecoded| enc_stored_event(v)
}

/// A list of rule records: 64-bit count, then the records.
pub open spec fn enc_rule_list(s: Seq<StoredRuleView>) -> Seq<u8> {
    enc_u64(s.len() as u64) + enc_items(enc_stored_rule_fn(), s)
}

/// A list of stored events: 64-bit count, then the records.
pub open spec fn enc_event_list(s: Seq<StoredEventDecoded>) -> Seq<u8> {
    enc_u64(s.len() as u64) + enc_items(enc_stored_event_fn(), s)
}

pub fn put_rule_list(v: &Vec<StoredRuleDecoded>, out: &mut Vec<u8>)
    ensures
        final(out)@ == old(out)@ + enc_rule_list(rule_views(v@)),
{
    let ghost f = enc_stored_rule_fn();
    let ghost vs = rule_views(v@);
    put_u64(v.len() as u64, out);
    let ghost mid = out@;
    let mut i: usize = 0;
    while i < v.len()
        invariant
            i <= v.len(),
            vs == rule_views(v@),
            vs.len() == v@.len(),
            f == enc_stored_rule_fn(),
            out@ == mid + enc_items(f, vs.take(i as int)),
        decreases v.len() - i,
    {
        put_stored_rule(&v[i], out);
        proof {
            lemma_enc_items_push(f, vs.take(i as int), vs[i as int]);
            assert(vs.take(i + 1) =~= vs.take(i as int).push(vs[i as int]));
        }
        i = i + 1;
    }
    proof {
        assert(vs.take(vs.len() as int) =~= vs);
        assert(out@ =~= old(out)@ + enc_rule_list(vs));
    }
}

pub fn put_event_list(v: &Vec<StoredEventDecoded>, out: &mut Vec<u8>)
    ensures
        final(out)@ == old(out)@ + enc_event_list(v@),
{
    let ghost f = enc_stored_event_fn();
    put_u64(v.len() as u64, out);
    let ghost mid = out@;
    let mut i: usize = 0;
    while i < v.len()
        invariant
            i <= v.len(),
            f == enc_stored_event_fn(),
            out@ == mid + enc_items(f, v@.take(i as int)),
        decreases v.len() - i,
    {
        put_stored_event(&v[i], out);
        proof {
            lemma_enc_items_push(f, v@.take(i as int), v@[i as int]);
            assert(v@.take(i + 1) =~= v@.take(i as int).push(v@[i as int]));
        }
        i = i + 1;
    }
    proof {
        assert(v@.take(v@.len() as int) =~= v@);
        assert(out@ =~= old(out)@ + enc_event_list(v@));
    }
}

#[verifier::rlimit(100)]
pub fn read_rule_list(buf: &Vec<u8>, pos: usize) -> (r: Option<(Vec<StoredRuleDecoded>, usize)>)
    ensures
        r matches Some((v, end)) ==> pos <= end <= buf@.len() && prefix_at(
            buf@,
            pos as int,
            enc_rule_list(rule_views(v@)),
        ) && end == pos + enc_rule_list(rule_views(v@)).len(),
        forall|s: Seq<StoredRuleView>|
            prefix_at(buf@, pos as int, #[trigger] enc_rule_list(s)) ==> (r matches Some((v, end))
                && rule_views(v@) == s && end == pos + enc_rule_list(s).len()),
{
    let ghost f = enc_stored_rule_fn();
    proof {
        assert forall|s: Seq<StoredRuleView>|
            prefix_at(buf@, pos as int, #[trigger] enc_rule_list(s)) implies prefix_at(
            buf@,
            pos as int,
            enc_u64(s.len() as u64),
        ) && prefix_at(buf@, pos + 8, enc_items(f, s)) by {
            lemma_prefix_split(buf@, pos as int, enc_u64(s.len() as u64), enc_items(f, s));
        }
    }
    match read_u64(buf, pos) {
        Some((n, body)) => {
            let mut v: Vec<StoredRuleDecoded> = Vec::new();
            let mut cur: usize = body;
            let mut i: u64 = 0;
            let mut ok: bool = true;
            proof {
                assert(rule_views(v@) =~= Seq::<StoredRuleView>::empty());
                assert(enc_items(f, rule_views(v@)).len() == 0);
                assert(buf@.subrange(body as int, body as int) =~= Seq::<u8>::empty());
                assert forall|s: Seq<StoredRuleView>|
                    (s.len() == n && prefix_at(buf@, body as int, #[trigger] enc_items(f, s)))
                        implies (rule_views(v@) == s.take(0int) && cur == body + enc_items(
                        f,
                        s.take(0int),
                    ).len()) by {
                    assert(s.take(0int) =~= Seq::<StoredRuleView>::empty());
                    assert(enc_items(f, s.take(0int)).len() == 0);
                }
            }
            loop
                invariant_except_break
                    ok,
                invariant
                    i <= n,
                    v@.len() == i,
                    body <= cur <= buf@.len(),
                    body == pos + 8,
                    f == enc_stored_rule_fn(),
                    prefix_at(buf@, body as int, enc_items(f, rule_views(v@))),
                    cur == body + enc_items(f, rule_views(v@)).len(),
                    forall|s: Seq<StoredRuleView>|
                        (s.len() == n && prefix_at(buf@, body as int, #[trigger] enc_items(f, s)))
                            ==> (rule_views(v@) == s.take(i as int) && cur == body + enc_items(
                            f,
                            s.take(i as int),
                        ).len()),
                ensures
                    body <= cur <= buf@.len(),
                    ok ==> i == n && v@.len() == n && prefix_at(
                        buf@,
                        body as int,
                        enc_items(f, rule_views(v@)),
                    ) && cur == body + enc_items(f, rule_views(v@)).len() && (forall|
                        s: Seq<StoredRuleView>,
                    |
                        (s.len() == n && prefix_at(buf@, body as int, #[trigger] enc_items(f, s)))
                            ==> rule_views(v@) == s),
                    !ok ==> (forall|s: Seq<StoredRuleView>|
                        !(s.len() == n && prefix_at(buf@, body as int, #[trigger] enc_items(f, s)))),
                decreases n - i,
            {
                if i == n {
                    proof {
                        assert forall|s: Seq<StoredRuleView>|
                            (s.len() == n && prefix_at(
                                buf@,
                                body as int,
                                #[trigger] enc_items(f, s),
                            )) implies rule_views(v@) == s by {
                            assert(s.take(i as int) =~= s);
                        }
                    }
                    break;
                }
                match read_stored_rule(buf, cur) {
                    Some((item, next)) => {
                        let ghost old_vs = rule_views(v@);
                        proof {
                            assert(f(item@) == enc_stored_rule(item@));
                            lemma_enc_items_push(f, old_vs, item@);
                            lemma_prefix_concat(buf@, body as int, enc_items(f, old_vs), f(item@));
                        }
                        v.push(item);
                        cur = next;
                        i = i + 1;
                        proof {
                            assert(rule_views(v@) =~= old_vs.push(item@));
                            assert forall|s: Seq<StoredRuleView>|
                                (s.len() == n && prefix_at(
                                    buf@,
                                    body as int,
                                    #[trigger] enc_items(f, s),
                                )) implies (rule_views(v@) == s.take(i as int) && cur == body
                                + enc_items(f, s.take(i as int)).len()) by {
                                let prev = (i - 1) as int;
                                lemma_enc_items_at(f, s, prev);
                                lemma_prefix_split(
                                    buf@,
                                    body as int,
                                    enc_items(f, s.take(prev)),
                                    f(s[prev]) + enc_items(f, s.skip(prev + 1)),
                                );
                                lemma_prefix_split(
                                    buf@,
                                    body + enc_items(f, s.take(prev)).len(),
                                    f(s[prev]),
                                    enc_items(f, s.skip(prev + 1)),
                                );
                                assert(f(s[prev]) == enc_stored_rule(s[prev]));
                                assert(prefix_at(
                                    buf@,
                                    body + enc_items(f, s.take(prev)).len(),
                                    enc_stored_rule(s[prev]),
                                ));
                                assert(item@ == s[prev]);
                                assert(s.take(i as int) =~= s.take(prev).push(s[prev]));
                                lemma_enc_items_push(f, s.take(prev), s[prev]);
                            }
                        }
                    },
                    None => {
                        proof {
                            assert forall|s: Seq<StoredRuleView>|
                                !(s.len() == n && prefix_at(
                                    buf@,
                                    body as int,
                                    #[trigger] enc_items(f, s),
                                )) by {
                                if s.len() == n && prefix_at(buf@, body as int, enc_items(f, s)) {
                                    let prev = i as int;
                                    lemma_enc_items_at(f, s, prev);
                                    lemma_prefix_split(
                                        buf@,
                                        body as int,
                                        enc_items(f, s.take(prev)),
                                        f(s[prev]) + enc_items(f, s.skip(prev + 1)),
                                    );
                                    lemma_prefix_split(
                                        buf@,
                                        body + enc_items(f, s.take(prev)).len(),
                                        f(s[prev]),
                                        enc_items(f, s.skip(prev + 1)),
                                    );
                                    assert(f(s[prev]) == enc_stored_rule(s[prev]));
                                    assert(prefix_at(buf@, cur as int, enc_stored_rule(s[prev])));
                                }
                            }
                        }
                        ok = false;
                        break;
                    },
                }
            }
            if ok {
                proof {
                    lemma_prefix_concat(
                        buf@,
                        pos as int,
                        enc_u64(n),
                        enc_items(f, rule_views(v@)),
                    );
                    assert forall|s: Seq<StoredRuleView>|
                        prefix_at(buf@, pos as int, #[trigger] enc_rule_list(s)) implies (
                    rule_views(v@) == s && cur == pos + enc_rule_list(s).len()) by {
                        lemma_prefix_split(
                            buf@,
                            pos as int,
                            enc_u64(s.len() as u64),
                            enc_items(f, s),
                        );
                        assert forall|x: StoredRuleView| (#[trigger] f(x)).len() >= 1 by {
                            assert(f(x) == enc_stored_rule(x));
                        }
                        assert(buf@.len() == buf.len());
                        lemma_enc_items_len_lower(f, s);
                        assert(s.len() as u64 == n);
                        assert(s.len() == n);
                        assert(prefix_at(buf@, body as int, enc_items(f, s)));
                        assert(rule_views(v@) == s);
                    }
                }
                Some((v, cur))
            } else {
                proof {
                    assert forall|s: Seq<StoredRuleView>|
                        !prefix_at(buf@, pos as int, #[trigger] enc_rule_list(s)) by {
                        if prefix_at(buf@, pos as int, enc_rule_list(s)) {
                            lemma_prefix_split(
                                buf@,
                                pos as int,
                                enc_u64(s.len() as u64),
                                enc_items(f, s),
                            );
                            assert forall|x: StoredRuleView| (#[trigger] f(x)).len() >= 1 by {
                                assert(f(x) == enc_stored_rule(x));
                            }
                            assert(buf@.len() == buf.len());
                            lemma_enc_items_len_lower(f, s);
                            assert(s.len() as u64 == n);
                            assert(s.len() == n);
                        }
                    }
                }
                None
            }
        },
        None => {
            proof {
                assert forall|s: Seq<StoredRuleView>|
                    !prefix_at(buf@, pos as int, #[trigger] enc_rule_list(s)) by {
                    if prefix_at(buf@, pos as int, enc_rule_list(s)) {
                        lemma_prefix_split(
                            buf@,
                            pos as int,
                            enc_u64(s.len() as u64),
                            enc_items(f, s),
                        );
                    }
                }
            }
            None
        },
    }
}

#[verifier::rlimit(100)]
pub fn read_event_list(buf: &Vec<u8>, pos: usize) -> (r: Option<(Vec<StoredEventDecoded>, usize)>)
    ensures
        r matches Some((v, end)) ==> pos <= end <= buf@.len() && prefix_at(
            buf@,
            pos as int,
            enc_event_list(v@),
        ) && end == pos + enc_event_list(v@).len(),
        forall|s: Seq<StoredEventDecoded>|
            prefix_at(buf@, pos as int, #[trigger] enc_event_list(s)) ==> (r matches Some((v, end))
                && v@ == s && end == pos + enc_event_list(s).len()),
{
    let ghost f = enc_stored_event_fn();
    proof {
        assert forall|s: Seq<StoredEventDecoded>|
            prefix_at(buf@, pos as int, #[trigger] enc_event_list(s)) implies prefix_at(
            buf@,
            pos as int,
            enc_u64(s.len() as u64),
        ) && prefix_at(buf@, pos + 8, enc_items(f, s)) by {
            lemma_prefix_split(buf@, pos as int, enc_u64(s.len() as u64), enc_items(f, s));
        }
    }
    match read_u64(buf, pos) {
        Some((n, body)) => {
            let mut v: Vec<StoredEventDecoded> = Vec::new();
            let mut cur: usize = body;
            let mut i: u64 = 0;
            let mut ok: bool = true;
            proof {
                assert(enc_items(f, v@).len() == 0);
                assert(buf@.subrange(body as int, body as int) =~= Seq::<u8>::empty());
                assert forall|s: Seq<StoredEventDecoded>|
                    (s.len() == n && prefix_at(buf@, body as int, #[trigger] enc_items(f, s)))
                        implies (v@ == s.take(0int) && cur == body + enc_items(
                        f,
                        s.take(0int),
                    ).len()) by {
                    assert(s.take(0int) =~= Seq::<StoredEventDecoded>::empty());
                    assert(enc_items(f, s.take(0int)).len() == 0);
                }
            }
            loop
                invariant_except_break
                    ok,
                invariant
                    i <= n,
                    v@.len() == i,
                    body <= cur <= buf@.len(),
                    body == pos + 8,
                    f == enc_stored_event_fn(),
                    prefix_at(buf@, body as int, enc_items(f, v@)),
                    cur == body + enc_items(f, v@).len(),
                    forall|s: Seq<StoredEventDecoded>|
                        (s.len() == n && prefix_at(buf@, body as int, #[trigger] enc_items(f, s)))
                            ==> (v@ == s.take(i as int) && cur == body + enc_items(
                            f,
                            s.take(i as int),
                        ).len()),
                ensures
                    body <= cur <= buf@.len(),
                    ok ==> i == n && v@.len() == n && prefix_at(
                        buf@,
                        body as int,
                        enc_items(f, v@),
                    ) && cur == body + enc_items(f, v@).len() && (forall|
                        s: Seq<StoredEventDecoded>,
                    |
                        (s.len() == n && prefix_at(buf@, body as int, #[trigger] enc_items(f, s)))
                            ==> v@ == s),
                    !ok ==> (forall|s: Seq<StoredEventDecoded>|
                        !(s.len() == n && prefix_at(buf@, body as int, #[trigger] enc_items(f, s)))),
                decreases n - i,
            {
                if i == n {
                    proof {
                        assert forall|s: Seq<StoredEventDecoded>|
                            (s.len() == n && prefix_at(
                                buf@,
                                body as int,
                                #[trigger] enc_items(f, s),
                            )) implies v@ == s by {
                            assert(s.take(i as int) =~= s);
                        }
                    }
                    break;
                }
                match read_stored_event(buf, cur) {
                    Some((item, next)) => {
                        let ghost old_vs = v@;
                        proof {
                            assert(f(item) == enc_stored_event(item));
                            lemma_enc_items_push(f, old_vs, item);
                            lemma_prefix_concat(buf@, body as int, enc_items(f, old_vs), f(item));
                        }
                        v.push(item);
                        cur = next;
                        i = i + 1;
                        proof {
                            assert(v@ =~= old_vs.push(item));
                            assert forall|s: Seq<StoredEventDecoded>|
                                (s.len() == n && prefix_at(
                                    buf@,
                                    body as int,
                                    #[trigger] enc_items(f, s),
                                )) implies (v@ == s.take(i as int) && cur == body + enc_items(
                                f,
                                s.take(i as int),
                            ).len()) by {
                                let prev = (i - 1) as int;
                                lemma_enc_items_at(f, s, prev);
                                lemma_prefix_split(
                                    buf@,
                                    body as int,
                                    enc_items(f, s.take(prev)),
                                    f(s[prev]) + enc_items(f, s.skip(prev + 1)),
                                );
                                lemma_prefix_split(
                                    buf@,
                                    body + enc_items(f, s.take(prev)).len(),
                                    f(s[prev]),
                                    enc_items(f, s.skip(prev + 1)),
                                );
                                assert(f(s[prev]) == enc_stored_event(s[prev]));
                                assert(prefix_at(
                                    buf@,
                                    body + enc_items(f, s.take(prev)).len(),
                                    enc_stored_event(s[prev]),
                                ));
                                assert(item == s[prev]);
                                assert(s.take(i as int) =~= s.take(prev).push(s[prev]));
                                lemma_enc_items_push(f, s.take(prev), s[prev]);
                            }
                        }
                    },
                    None => {
                        proof {
                            assert forall|s: Seq<StoredEventDecoded>|
                                !(s.len() == n && prefix_at(
                                    buf@,
                                    body as int,
                                    #[trigger] enc_items(f, s),
                                )) by {
                                if s.len() == n && prefix_at(buf@, body as int, enc_items(f, s)) {
                                    let prev = i as int;
                                    lemma_enc_items_at(f, s, prev);
                                    lemma_prefix_split(
                                        buf@,
                                        body as int,
                                        enc_items(f, s.take(prev)),
                                        f(s[prev]) + enc_items(f, s.skip(prev + 1)),
                                    );
                                    lemma_prefix_split(
                                        buf@,
                                        body + enc_items(f, s.take(prev)).len(),
                                        f(s[prev]),
                                        enc_items(f, s.skip(prev + 1)),
                                    );
                                    assert(f(s[prev]) == enc_stored_event(s[prev]));
                                    assert(prefix_at(buf@, cur as int, enc_stored_event(s[prev])));
                                }
                            }
                        }
                        ok = false;
                        break;
                    },
                }
            }
            if ok {
                proof {
                    lemma_prefix_concat(buf@, pos as int, enc_u64(n), enc_items(f, v@));
                    assert forall|s: Seq<StoredEventDecoded>|
                        prefix_at(buf@, pos as int, #[trigger] enc_event_list(s)) implies (v@ == s
                        && cur == pos + enc_event_list(s).len()) by {
                        lemma_prefix_split(buf@, pos as int, enc_u64(s.len() as u64), enc_items(f, s));
                        assert forall|x: StoredEventDecoded| (#[trigger] f(x)).len() >= 1 by {
                            assert(f(x) == enc_stored_event(x));
                        }
                        assert(buf@.len() == buf.len());
                        lemma_enc_items_len_lower(f, s);
                        assert(s.len() < 0x1_0000_0000_0000_0000);
                        assert(s.len() as u64 == n);
                        assert(s.len() == n);
                        assert(prefix_at(buf@, body as int, enc_items(f, s)));
                        assert(v@ == s);
                    }
                }
                Some((v, cur))
            } else {
                proof {
                    assert forall|s: Seq<StoredEventDecoded>|
                        !prefix_at(buf@, pos as int, #[trigger] enc_event_list(s)) by {
                        if prefix_at(buf@, pos as int, enc_event_list(s)) {
                            lemma_prefix_split(
                                buf@,
                                pos as int,
                                enc_u64(s.len() as u64),
                                enc_items(f, s),
                            );
                            assert forall|x: StoredEventDecoded| (#[trigger] f(x)).len() >= 1 by {
                                assert(f(x) == enc_stored_event(x));
                            }
                            assert(buf@.len() == buf.len());
                            lemma_enc_items_len_lower(f, s);
                            assert(s.len() as u64 == n);
                            assert(s.len() == n);
                        }
                    }
                }
                None
            }
        },
        None => {
            proof {
                assert forall|s: Seq<StoredEventDecoded>|
                    !prefix_at(buf@, pos as int, #[trigger] enc_event_list(s)) by {
                    if prefix_at(buf@, pos as int, enc_event_list(s)) {
                        lemma_prefix_split(
                            buf@,
                            pos as int,
                            enc_u64(s.len() as u64),
                            enc_items(f, s),
                        );
                    }
                }
            }
            None
        },
    }
}

pub open spec fn enc_status(v: Status) -> Seq<u8> {
    match v {
        Status::Stopped => enc_u32(0),
        Status::Running => enc_u32(1),
    }
}

pub open spec fn enc_rule_status(v: RuleStatus) -> Seq<u8> {
    match v {
        RuleStatus::Active => enc_u32(0),
        RuleStatus::Inactive => enc_u32(1),
    }
}

pub open spec fn enc_rule_change(v: RuleChange) -> Seq<u8> {
    match v {
        RuleChange::NoSuchRule => enc_u32(0),
        RuleChange::NoChangeRequired(s) => enc_u32(1) + enc_rule_status(s),
        RuleChange::Change(s) => enc_u32(2) + enc_rule_status(s),
    }
}

pub open spec fn enc_event_query(v: EventQuery) -> Seq<u8> {
    match v {
        EventQuery::All => enc_u32(0),
        EventQuery::Last(micros) => enc_u32(1) + enc_u64(micros),
        EventQuery::Since(t) => enc_u32(2) + enc_timestamp(t),
    }
}

pub open spec fn enc_request(v: RequestView) -> Seq<u8> {
    match v {
        RequestView::AddRule(m) => enc_u32(0) + enc_stored_rule(m),
        RequestView::DeleteRule(i) => enc_u32(1) + enc_u32(i),
        RequestView::EnableRule(i) => enc_u32(2) + enc_u32(i),
        RequestView::DisableRule(i) => enc_u32(3) + enc_u32(i),
        RequestView::ToggleRule(i) => enc_u32(4) + enc_u32(i),
        RequestView::UpdateRule(i, r) => enc_u32(5) + (enc_u32(i) + enc_rule(r)),
        RequestView::GetRule(i) => enc_u32(6) + enc_u32(i),
        RequestView::GetRules => enc_u32(7),
        RequestView::Status => enc_u32(8),
        RequestView::GetEvents(q) => enc_u32(9) + enc_event_query(q),
    }
}

pub open spec fn enc_response(v: ResponseView) -> Seq<u8> {
    match v {
        ResponseView::Id(i) => enc_u32(0) + enc_u32(i),
        ResponseView::ListFull => enc_u32(1),
        ResponseView::Rules(rs) => enc_u32(2) + enc_rule_list(rs),
        ResponseView::Rule(r) => enc_u32(3) + enc_stored_rule(r),
        ResponseView::DoesNotExist => enc_u32(4),
        ResponseView::Status(st) => enc_u32(5) + enc_status(st),
        ResponseView::RuleChange(c) => enc_u32(6) + enc_rule_change(c),
        ResponseView::Events(es) => enc_u32(7) + enc_event_list(es),
    }
}

pub open spec fn enc_message(v: MessageView) -> Seq<u8> {
    match v {
        MessageView::Terminate => enc_u32(0),
        MessageView::Start => enc_u32(1),
        MessageView::Halt => enc_u32(2),
        MessageView::Firewall(r) => enc_u32(3) + enc_request(r),
    }
}

pub open spec fn enc_log_kind(v: LogKind) -> Seq<u8> {
    match v {
        LogKind::Event(e) => enc_u32(0) + enc_stored_event(e),
    }
}

pub open spec fn enc_log(v: Log) -> Seq<u8> {
    enc_timestamp(v.time) + enc_log_kind(v.kind)
}

pub fn put_status(v: &Status, out: &mut Vec<u8>)
    ensures
        final(out)@ == old(out)@ + enc_status(*v),
{
    match v {
        Status::Stopped => put_u32(0, out),
        Status::Running => put_u32(1, out),
    }
}

pub fn put_rule_status(v: &RuleStatus, out: &mut Vec<u8>)
    ensures
        final(out)@ == old(out)@ + enc_rule_status(*v),
{
    match v {
        RuleStatus::Active => put_u32(0, out),
        RuleStatus::Inactive => put_u32(1, out),
    }
}

pub fn put_rule_change(v: &RuleChange, out: &mut Vec<u8>)
    ensures
        final(out)@ == old(out)@ + enc_rule_change(*v),
{
    match v {
        RuleChange::NoSuchRule => put_u32(0, out),
        RuleChange::NoChangeRequired(s) => {
            put_u32(1, out);
            put_rule_status(s, out);
        },
        RuleChange::Change(s) => {
            put_u32(2, out);
            put_rule_status(s, out);
        },
    }
    assert(out@ =~= old(out)@ + enc_rule_change(*v));
}

pub fn put_event_query(v: &EventQuery, out: &mut Vec<u8>)
    ensures
        final(out)@ == old(out)@ + enc_event_query(*v),
{
    match v {
        EventQuery::All => put_u32(0, out),
        EventQuery::Last(micros) => {
            put_u32(1, out);
            put_u64(*micros, out);
        },
        EventQuery::Since(t) => {
            put_u32(2, out);
            put_timestamp(t, out);
        },
    }
    assert(out@ =~= old(out)@ + enc_event_query(*v));
}

pub fn put_request(v: &Request, out: &mut Vec<u8>)
    ensures
        final(out)@ == old(out)@ + enc_request(v@),
{
    match v {
        Request::AddRule(m) => {
            put_u32(0, out);
            put_stored_rule(m, out);
        },
        Request::DeleteRule(i) => {
            put_u32(1, out);
            put_u32(*i, out);
        },
        Request::EnableRule(i) => {
            put_u32(2, out);
            put_u32(*i, out);
        },
        Request::DisableRule(i) => {
            put_u32(3, out);
            put_u32(*i, out);
        },
        Request::ToggleRule(i) => {
            put_u32(4, out);
            put_u32(*i, out);
        },
        Request::UpdateRule(i, r) => {
            put_u32(5, out);
            put_u32(*i, out);
            put_rule(r, out);
        },
        Request::GetRule(i) => {
            put_u32(6, out);
            put_u32(*i, out);
        },
        Request::GetRules => put_u32(7, out),
        Request::Status => put_u32(8, out),
        Request::GetEvents(q) => {
            put_u32(9, out);
            put_event_query(q, out);
        },
    }
    assert(out@ =~= old(out)@ + enc_request(v@));
}

pub fn put_response(v: &Response, out: &mut Vec<u8>)
    ensures
        final(out)@ == old(out)@ + enc_response(v@),
{
    match v {
        Response::Id(i) => {
            put_u32(0, out);
            put_u32(*i, out);
        },
        Response::ListFull => put_u32(1, out),
        Response::Rules(rs) => {
            put_u32(2, out);
            put_rule_list(rs, out);
        },
        Response::Rule(r) => {
            put_u32(3, out);
            put_stored_rule(r, out);
        },
        Response::DoesNotExist => put_u32(4, out),
        Response::Status(st) => {
            put_u32(5, out);
            put_status(st, out);
        },
        Response::RuleChange(c) => {
            put_u32(6, out);
            put_rule_change(c, out);
        },
        Response::Events(es) => {
            put_u32(7, out);
            put_event_list(es, out);
        },
    }
    assert(out@ =~= old(out)@ + enc_response(v@));
}

pub fn put_message(v: &Message, out: &mut Vec<u8>)
    ensures
        final(out)@ == old(out)@ + enc_message(v@),
{
    match v {
        Message::Terminate => put_u32(0, out),
        Message::Start => put_u32(1, out),
        Message::Halt => put_u32(2, out),
        Message::Firewall(r) => {
            put_u32(3, out);
            put_request(r, out);
        },
    }
    assert(out@ =~= old(out)@ + enc_message(v@));
}

pub fn put_log_kind(v: &LogKind, out: &mut Vec<u8>)
    ensures
        final(out)@ == old(out)@ + enc_log_kind(*v),
{
    match v {
        LogKind::Event(e) => {
            put_u32(0, out);
            put_stored_event(e, out);
        },
    }
    assert(out@ =~= old(out)@ + enc_log_kind(*v));
}

pub fn put_log(v: &Log, out: &mut Vec<u8>)
    ensures
        final(out)@ == old(out)@ + enc_log(*v),
{
    put_timestamp(&v.time, out);
    put_log_kind(&v.kind, out);
    assert(out@ =~= old(out)@ + enc_log(*v));
}

pub fn read_status(buf: &Vec<u8>, pos: usize) -> (r: Option<(Status, usize)>)
    ensures
        r matches Some((v, end)) ==> pos <= end <= buf@.len() && prefix_at(
            buf@,
            pos as int,
            enc_status(v),
        ) && end == pos + enc_status(v).len(),
        forall|v: Status|
            prefix_at(buf@, pos as int, #[trigger] enc_status(v)) ==> (r matches Some((x, end))
                && x == v && end == pos + enc_status(v).len()),
{
    match read_u32(buf, pos) {
        Some((0, end)) => Some((Status::Stopped, end)),
        Some((1, end)) => Some((Status::Running, end)),
        _ => None,
    }
}

pub fn read_rule_status(buf: &Vec<u8>, pos: usize) -> (r: Option<(RuleStatus, usize)>)
    ensures
        r matches Some((v, end)) ==> pos <= end <= buf@.len() && prefix_at(
            buf@,
            pos as int,
            enc_rule_status(v),
        ) && end == pos + enc_rule_status(v).len(),
        forall|v: RuleStatus|
            prefix_at(buf@, pos as int, #[trigger] enc_rule_status(v)) ==> (r matches Some(
                (x, end),
            ) && x == v && end == pos + enc_rule_status(v).len()),
{
    match read_u32(buf, pos) {
        Some((0, end)) => Some((RuleStatus::Active, end)),
        Some((1, end)) => Some((RuleStatus::Inactive, end)),
        _ => None,
    }
}

pub fn read_rule_change(buf: &Vec<u8>, pos: usize) -> (r: Option<(RuleChange, usize)>)
    ensures
        r matches Some((v, end)) ==> pos <= end <= buf@.len() && prefix_at(
            buf@,
            pos as int,
            enc_rule_change(v),
        ) && end == pos + enc_rule_change(v).len(),
        forall|v: RuleChange|
            prefix_at(buf@, pos as int, #[trigger] enc_rule_change(v)) ==> (r matches Some(
                (x, end),
            ) && x == v && end == pos + enc_rule_change(v).len()),
{
    proof {
        assert forall|v: RuleChange|
            prefix_at(buf@, pos as int, #[trigger] enc_rule_change(v)) implies ({
            match v {
                RuleChange::NoSuchRule => prefix_at(buf@, pos as int, enc_u32(0)),
                RuleChange::NoChangeRequired(s) => prefix_at(buf@, pos as int, enc_u32(1))
                    && prefix_at(buf@, pos + 4, enc_rule_status(s)),
                RuleChange::Change(s) => prefix_at(buf@, pos as int, enc_u32(2)) && prefix_at(
                    buf@,
                    pos + 4,
                    enc_rule_status(s),
                ),
            }
        }) by {
            match v {
                RuleChange::NoSuchRule => {},
                RuleChange::NoChangeRequired(s) => {
                    lemma_prefix_split(buf@, pos as int, enc_u32(1), enc_rule_status(s));
                },
                RuleChange::Change(s) => {
                    lemma_prefix_split(buf@, pos as int, enc_u32(2), enc_rule_status(s));
                },
            }
        }
    }
    match read_u32(buf, pos) {
        Some((0, p1)) => Some((RuleChange::NoSuchRule, p1)),
        Some((1, p1)) => {
            match read_rule_status(buf, p1) {
                Some((st, p2)) => {
                    proof {
                        lemma_prefix_concat(buf@, pos as int, enc_u32(1), enc_rule_status(st));
                    }
                    Some((RuleChange::NoChangeRequired(st), p2))
                },
                None => None,
            }
        },
        Some((2, p1)) => {
            match read_rule_status(buf, p1) {
                Some((st, p2)) => {
                    proof {
                        lemma_prefix_concat(buf@, pos as int, enc_u32(2), enc_rule_status(st));
                    }
                    Some((RuleChange::Change(st), p2))
                },
                None => None,
            }
        },
        _ => None,
    }
}

pub fn read_event_query(buf: &Vec<u8>, pos: usize) -> (r: Option<(EventQuery, usize)>)
    ensures
        r matches Some((v, end)) ==> pos <= end <= buf@.len() && prefix_at(
            buf@,
            pos as int,
            enc_event_query(v),
        ) && end == pos + enc_event_query(v).len(),
        forall|v: EventQuery|
            prefix_at(buf@, pos as int, #[trigger] enc_event_query(v)) ==> (r matches Some(
                (x, end),
            ) && x == v && end == pos + enc_event_query(v).len()),
{
    proof {
        assert forall|v: EventQuery|
            prefix_at(buf@, pos as int, #[trigger] enc_event_query(v)) implies ({
            match v {
                EventQuery::All => prefix_at(buf@, pos as int, enc_u32(0)),
                EventQuery::Last(micros) => prefix_at(buf@, pos as int, enc_u32(1)) && prefix_at(
                    buf@,
                    pos + 4,
                    enc_u64(micros),
                ),
                EventQuery::Since(t) => prefix_at(buf@, pos as int, enc_u32(2)) && prefix_at(
                    buf@,
                    pos + 4,
                    enc_timestamp(t),
                ),
            }
        }) by {
            match v {
                EventQuery::All => {},
                EventQuery::Last(micros) => {
                    lemma_prefix_split(buf@, pos as int, enc_u32(1), enc_u64(micros));
                },
                EventQuery::Since(t) => {
                    lemma_prefix_split(buf@, pos as int, enc_u32(2), enc_timestamp(t));
                },
            }
        }
    }
    match read_u32(buf, pos) {
        Some((0, p1)) => Some((EventQuery::All, p1)),
        Some((1, p1)) => {
            match read_u64(buf, p1) {
                Some((micros, p2)) => {
                    proof {
                        lemma_prefix_concat(buf@, pos as int, enc_u32(1), enc_u64(micros));
                    }
                    Some((EventQuery::Last(micros), p2))
                },
                None => None,
            }
        },
        Some((2, p1)) => {
            match read_timestamp(buf, p1) {
                Some((t, p2)) => {
                    proof {
                        lemma_prefix_concat(buf@, pos as int, enc_u32(2), enc_timestamp(t));
                    }
                    Some((EventQuery::Since(t), p2))
                },
                None => None,
            }
        },
        _ => None,
    }
}

#[verifier::rlimit(100)]
pub fn read_request(buf: &Vec<u8>, pos: usize) -> (r: Option<(Request, usize)>)
    ensures
        r matches Some((v, end)) ==> pos <= end <= buf@.len() && prefix_at(
            buf@,
            pos as int,
            enc_request(v@),
        ) && end == pos + enc_request(v@).len(),
        forall|v: RequestView|
            prefix_at(buf@, pos as int, #[trigger] enc_request(v)) ==> (r matches Some((x, end))
                && x@ == v && end == pos + enc_request(v).len()),
{
    proof {
        assert forall|v: RequestView|
            prefix_at(buf@, pos as int, #[trigger] enc_request(v)) implies ({
            match v {
                RequestView::AddRule(m) => prefix_at(buf@, pos as int, enc_u32(0)) && prefix_at(
                    buf@,
                    pos + 4,
                    enc_stored_rule(m),
                ),
                RequestView::DeleteRule(i) => prefix_at(buf@, pos as int, enc_u32(1)) && prefix_at(
                    buf@,
                    pos + 4,
                    enc_u32(i),
                ),
                RequestView::EnableRule(i) => prefix_at(buf@, pos as int, enc_u32(2)) && prefix_at(
                    buf@,
                    pos + 4,
                    enc_u32(i),
                ),
                RequestView::DisableRule(i) => prefix_at(buf@, pos as int, enc_u32(3)) && prefix_at(
                    buf@,
                    pos + 4,
                    enc_u32(i),
                ),
                RequestView::ToggleRule(i) => prefix_at(buf@, pos as int, enc_u32(4)) && prefix_at(
                    buf@,
                    pos + 4,
                    enc_u32(i),
                ),
                RequestView::UpdateRule(i, ru) => prefix_at(buf@, pos as int, enc_u32(5))
                    && prefix_at(buf@, pos + 4, enc_u32(i)) && prefix_at(
                    buf@,
                    pos + 8,
                    enc_rule(ru),
                ),
                RequestView::GetRule(i) => prefix_at(buf@, pos as int, enc_u32(6)) && prefix_at(
                    buf@,
                    pos + 4,
                    enc_u32(i),
                ),
                RequestView::GetRules => prefix_at(buf@, pos as int, enc_u32(7)),
                RequestView::Status => prefix_at(buf@, pos as int, enc_u32(8)),
                RequestView::GetEvents(q) => prefix_at(buf@, pos as int, enc_u32(9)) && prefix_at(
                    buf@,
                    pos + 4,
                    enc_event_query(q),
                ),
            }
        }) by {
            match v {
                RequestView::AddRule(m) => {
                    lemma_prefix_split(buf@, pos as int, enc_u32(0), enc_stored_rule(m));
                },
                RequestView::DeleteRule(i) => {
                    lemma_prefix_split(buf@, pos as int, enc_u32(1), enc_u32(i));
                },
                RequestView::EnableRule(i) => {
                    lemma_prefix_split(buf@, pos as int, enc_u32(2), enc_u32(i));
                },
                RequestView::DisableRule(i) => {
                    lemma_prefix_split(buf@, pos as int, enc_u32(3), enc_u32(i));
                },
                RequestView::ToggleRule(i) => {
                    lemma_prefix_split(buf@, pos as int, enc_u32(4), enc_u32(i));
                },
                RequestView::UpdateRule(i, ru) => {
                    lemma_prefix_split(buf@, pos as int, enc_u32(5), enc_u32(i) + enc_rule(ru));
                    lemma_prefix_split(buf@, pos + 4, enc_u32(i), enc_rule(ru));
                },
                RequestView::GetRule(i) => {
                    lemma_prefix_split(buf@, pos as int, enc_u32(6), enc_u32(i));
                },
                RequestView::GetRules => {},
                RequestView::Status => {},
                RequestView::GetEvents(q) => {
                    lemma_prefix_split(buf@, pos as int, enc_u32(9), enc_event_query(q));
                },
            }
        }
    }
    match read_u32(buf, pos) {
        Some((0, p1)) => {
            match read_stored_rule(buf, p1) {
                Some((m, p2)) => {
                    proof {
                        lemma_prefix_concat(buf@, pos as int, enc_u32(0), enc_stored_rule(m@));
                    }
                    Some((Request::AddRule(m), p2))
                },
                None => None,
            }
        },
        Some((1, p1)) => {
            match read_u32(buf, p1) {
                Some((i, p2)) => {
                    proof {
                        lemma_prefix_concat(buf@, pos as int, enc_u32(1), enc_u32(i));
                    }
                    Some((Request::DeleteRule(i), p2))
                },
                None => None,
            }
        },
        Some((2, p1)) => {
            match read_u32(buf, p1) {
                Some((i, p2)) => {
                    proof {
                        lemma_prefix_concat(buf@, pos as int, enc_u32(2), enc_u32(i));
                    }
                    Some((Request::EnableRule(i), p2))
                },
                None => None,
            }
        },
        Some((3, p1)) => {
            match read_u32(buf, p1) {
                Some((i, p2)) => {
                    proof {
                        lemma_prefix_concat(buf@, pos as int, enc_u32(3), enc_u32(i));
                    }
                    Some((Request::DisableRule(i), p2))
                },
                None => None,
            }
        },
        Some((4, p1)) => {
            match read_u32(buf, p1) {
                Some((i, p2)) => {
                    proof {
                        lemma_prefix_concat(buf@, pos as int, enc_u32(4), enc_u32(i));
                    }
                    Some((Request::ToggleRule(i), p2))
                },
                None => None,
            }
        },
        Some((5, p1)) => {
            match read_u32(buf, p1) {
                Some((i, p2)) => {
                    match read_rule(buf, p2) {
                        Some((ru, p3)) => {
                            proof {
                                lemma_prefix_concat(buf@, p1 as int, enc_u32(i), enc_rule(ru));
                                lemma_prefix_concat(
                                    buf@,
                                    pos as int,
                                    enc_u32(5),
                                    enc_u32(i) + enc_rule(ru),
                                );
                            }
                            Some((Request::UpdateRule(i, ru), p3))
                        },
                        None => None,
                    }
                },
                None => None,
            }
        },
        Some((6, p1)) => {
            match read_u32(buf, p1) {
                Some((i, p2)) => {
                    proof {
                        lemma_prefix_concat(buf@, pos as int, enc_u32(6), enc_u32(i));
                    }
                    Some((Request::GetRule(i), p2))
                },
                None => None,
            }
        },
        Some((7, p1)) => Some((Request::GetRules, p1)),
        Some((8, p1)) => Some((Request::Status, p1)),
        Some((9, p1)) => {
            match read_event_query(buf, p1) {
                Some((q, p2)) => {
                    proof {
                        lemma_prefix_concat(buf@, pos as int, enc_u32(9), enc_event_query(q));
                    }
                    Some((Request::GetEvents(q), p2))
                },
                None => None,
            }
        },
        _ => None,
    }
}

#[verifier::rlimit(100)]
pub fn read_response(buf: &Vec<u8>, pos: usize) -> (r: Option<(Response, usize)>)
    ensures
        r matches Some((v, end)) ==> pos <= end <= buf@.len() && prefix_at(
            buf@,
            pos as int,
            enc_response(v@),
        ) && end == pos + enc_response(v@).len(),
        forall|v: ResponseView|
            prefix_at(buf@, pos as int, #[trigger] enc_response(v)) ==> (r matches Some((x, end))
                && x@ == v && end == pos + enc_response(v).len()),
{
    proof {
        assert forall|v: ResponseView|
            prefix_at(buf@, pos as int, #[trigger] enc_response(v)) implies ({
            match v {
                ResponseView::Id(i) => prefix_at(buf@, pos as int, enc_u32(0)) && prefix_at(
                    buf@,
                    pos + 4,
                    enc_u32(i),
                ),
                ResponseView::ListFull => prefix_at(buf@, pos as int, enc_u32(1)),
                ResponseView::Rules(rs) => prefix_at(buf@, pos as int, enc_u32(2)) && prefix_at(
                    buf@,
                    pos + 4,
                    enc_rule_list(rs),
                ),
                ResponseView::Rule(ru) => prefix_at(buf@, pos as int, enc_u32(3)) && prefix_at(
                    buf@,
                    pos + 4,
                    enc_stored_rule(ru),
                ),
                ResponseView::DoesNotExist => prefix_at(buf@, pos as int, enc_u32(4)),
                ResponseView::Status(st) => prefix_at(buf@, pos as int, enc_u32(5)) && prefix_at(
                    buf@,
                    pos + 4,
                    enc_status(st),
                ),
                ResponseView::RuleChange(c) => prefix_at(buf@, pos as int, enc_u32(6)) && prefix_at(
                    buf@,
                    pos + 4,
                    enc_rule_change(c),
                ),
                ResponseView::Events(es) => prefix_at(buf@, pos as int, enc_u32(7)) && prefix_at(
                    buf@,
                    pos + 4,
                    enc_event_list(es),
                ),
            }
        }) by {
            match v {
                ResponseView::Id(i) => {
                    lemma_prefix_split(buf@, pos as int, enc_u32(0), enc_u32(i));
                },
                ResponseView::ListFull => {},
                ResponseView::Rules(rs) => {
                    lemma_prefix_split(buf@, pos as int, enc_u32(2), enc_rule_list(rs));
                },
                ResponseView::Rule(ru) => {
                    lemma_prefix_split(buf@, pos as int, enc_u32(3), enc_stored_rule(ru));
                },
                ResponseView::DoesNotExist => {},
                ResponseView::Status(st) => {
                    lemma_prefix_split(buf@, pos as int, enc_u32(5), enc_status(st));
                },
                ResponseView::RuleChange(c) => {
                    lemma_prefix_split(buf@, pos as int, enc_u32(6), enc_rule_change(c));
                },
                ResponseView::Events(es) => {
                    lemma_prefix_split(buf@, pos as int, enc_u32(7), enc_event_list(es));
                },
            }
        }
    }
    match read_u32(buf, pos) {
        Some((0, p1)) => {
            match read_u32(buf, p1) {
                Some((i, p2)) => {
                    proof {
                        lemma_prefix_concat(buf@, pos as int, enc_u32(0), enc_u32(i));
                    }
                    Some((Response::Id(i), p2))
                },
                None => None,
            }
        },
        Some((1, p1)) => Some((Response::ListFull, p1)),
        Some((2, p1)) => {
            match read_rule_list(buf, p1) {
                Some((rs, p2)) => {
                    proof {
                        lemma_prefix_concat(
                            buf@,
                            pos as int,
                            enc_u32(2),
                            enc_rule_list(rule_views(rs@)),
                        );
                    }
                    Some((Response::Rules(rs), p2))
                },
                None => None,
            }
        },
        Some((3, p1)) => {
            match read_stored_rule(buf, p1) {
                Some((ru, p2)) => {
                    proof {
                        lemma_prefix_concat(buf@, pos as int, enc_u32(3), enc_stored_rule(ru@));
                    }
                    Some((Response::Rule(ru), p2))
                },
                None => None,
            }
        },
        Some((4, p1)) => Some((Response::DoesNotExist, p1)),
        Some((5, p1)) => {
            match read_status(buf, p1) {
                Some((st, p2)) => {
                    proof {
                        lemma_prefix_concat(buf@, pos as int, enc_u32(5), enc_status(st));
                    }
                    Some((Response::Status(st), p2))
                },
                None => None,
            }
        },
        Some((6, p1)) => {
            match read_rule_change(buf, p1) {
                Some((c, p2)) => {
                    proof {
                        lemma_prefix_concat(buf@, pos as int, enc_u32(6), enc_rule_change(c));
                    }
                    Some((Response::RuleChange(c), p2))
                },
                None => None,
            }
        },
        Some((7, p1)) => {
            match read_event_list(buf, p1) {
                Some((es, p2)) => {
                    proof {
                        lemma_prefix_concat(buf@, pos as int, enc_u32(7), enc_event_list(es@));
                    }
                    Some((Response::Events(es), p2))
                },
                None => None,
            }
        },
        _ => None,
    }
}

pub fn read_message(buf: &Vec<u8>, pos: usize) -> (r: Option<(Message, usize)>)
    ensures
        r matches Some((v, end)) ==> pos <= end <= buf@.len() && prefix_at(
            buf@,
            pos as int,
            enc_message(v@),
        ) && end == pos + enc_message(v@).len(),
        forall|v: MessageView|
            prefix_at(buf@, pos as int, #[trigger] enc_message(v)) ==> (r matches Some((x, end))
                && x@ == v && end == pos + enc_message(v).len()),
{
    proof {
        assert forall|v: MessageView|
            prefix_at(buf@, pos as int, #[trigger] enc_message(v)) implies ({
            match v {
                MessageView::Terminate => prefix_at(buf@, pos as int, enc_u32(0)),
                MessageView::Start => prefix_at(buf@, pos as int, enc_u32(1)),
                MessageView::Halt => prefix_at(buf@, pos as int, enc_u32(2)),
                MessageView::Firewall(rq) => prefix_at(buf@, pos as int, enc_u32(3)) && prefix_at(
                    buf@,
                    pos + 4,
                    enc_request(rq),
                ),
            }
        }) by {
            match v {
                MessageView::Terminate => {},
                MessageView::Start => {},
                MessageView::Halt => {},
                MessageView::Firewall(rq) => {
                    lemma_prefix_split(buf@, pos as int, enc_u32(3), enc_request(rq));
                },
            }
        }
    }
    match read_u32(buf, pos) {
        Some((0, p1)) => Some((Message::Terminate, p1)),
        Some((1, p1)) => Some((Message::Start, p1)),
        Some((2, p1)) => Some((Message::Halt, p1)),
        Some((3, p1)) => {
            match read_request(buf, p1) {
                Some((rq, p2)) => {
                    proof {
                        lemma_prefix_concat(buf@, pos as int, enc_u32(3), enc_request(rq@));
                    }
                    Some((Message::Firewall(rq), p2))
                },
                None => None,
            }
        },
        _ => None,
    }
}

pub fn read_log_kind(buf: &Vec<u8>, pos: usize) -> (r: Option<(LogKind, usize)>)
    ensures
        r matches Some((v, end)) ==> pos <= end <= buf@.len() && prefix_at(
            buf@,
            pos as int,
            enc_log_kind(v),
        ) && end == pos + enc_log_kind(v).len(),
        forall|v: LogKind|
            prefix_at(buf@, pos as int, #[trigger] enc_log_kind(v)) ==> (r matches Some((x, end))
                && x == v && end == pos + enc_log_kind(v).len()),
{
    proof {
        assert forall|v: LogKind|
            prefix_at(buf@, pos as int, #[trigger] enc_log_kind(v)) implies ({
            match v {
                LogKind::Event(e) => prefix_at(buf@, pos as int, enc_u32(0)) && prefix_at(
                    buf@,
                    pos + 4,
                    enc_stored_event(e),
                ),
            }
        }) by {
            match v {
                LogKind::Event(e) => {
                    lemma_prefix_split(buf@, pos as int, enc_u32(0), enc_stored_event(e));
                },
            }
        }
    }
    match read_u32(buf, pos) {
        Some((0, p1)) => {
            match read_stored_event(buf, p1) {
                Some((e, p2)) => {
                    proof {
                        lemma_prefix_concat(buf@, pos as int, enc_u32(0), enc_stored_event(e));
                    }
                    Some((LogKind::Event(e), p2))
                },
                None => None,
            }
        },
        _ => None,
    }
}

pub fn read_log(buf: &Vec<u8>, pos: usize) -> (r: Option<(Log, usize)>)
    ensures
        r matches Some((v, end)) ==> pos <= end <= buf@.len() && prefix_at(
            buf@,
            pos as int,
            enc_log(v),
        ) && end == pos + enc_log(v).len(),
        forall|v: Log|
            prefix_at(buf@, pos as int, #[trigger] enc_log(v)) ==> (r matches Some((x, end)) && x
                == v && end == pos + enc_log(v).len()),
{
    proof {
        assert forall|v: Log|
            prefix_at(buf@, pos as int, #[trigger] enc_log(v)) implies prefix_at(
            buf@,
            pos as int,
            enc_timestamp(v.time),
        ) && prefix_at(buf@, pos + 8, enc_log_kind(v.kind)) by {
            lemma_prefix_split(buf@, pos as int, enc_timestamp(v.time), enc_log_kind(v.kind));
        }
    }
    match read_timestamp(buf, pos) {
        Some((time, p1)) => {
            match read_log_kind(buf, p1) {
                Some((kind, p2)) => {
                    proof {
                        lemma_prefix_concat(
                            buf@,
                            pos as int,
                            enc_timestamp(time),
                            enc_log_kind(kind),
                        );
                    }
                    Some((Log { time, kind }, p2))
                },
                None => None,
            }
        },
        None => None,
    }
}

/// Encode one control message as a length-prefixed frame.
pub fn frame_message(m: &Message) -> (r: Vec<u8>)
    ensures
        r@ == enc_bytes(enc_message(m@)),
{
    let mut payload: Vec<u8> = Vec::new();
    put_message(m, &mut payload);
    let mut out: Vec<u8> = Vec::new();
    put_bytes(&payload, &mut out);
    proof {
        assert(payload@ =~= enc_message(m@));
        assert(out@ =~= enc_bytes(enc_message(m@)));
    }
    out
}

/// Encode one control response as a length-prefixed frame.
pub fn frame_response(m: &Response) -> (r: Vec<u8>)
    ensures
        r@ == enc_bytes(enc_response(m@)),
{
    let mut payload: Vec<u8> = Vec::new();
    put_response(m, &mut payload);
    let mut out: Vec<u8> = Vec::new();
    put_bytes(&payload, &mut out);
    proof {
        assert(payload@ =~= enc_response(m@));
        assert(out@ =~= enc_bytes(enc_response(m@)));
    }
    out
}

/// Encode one event-stream record as a length-prefixed frame.
pub fn frame_log_kind(m: &LogKind) -> (r: Vec<u8>)
    ensures
        r@ == enc_bytes(enc_log_kind(*m)),
{
    let mut payload: Vec<u8> = Vec::new();
    put_log_kind(m, &mut payload);
    let mut out: Vec<u8> = Vec::new();
    put_bytes(&payload, &mut out);
    proof {
        assert(payload@ =~= enc_log_kind(*m));
        assert(out@ =~= enc_bytes(enc_log_kind(*m)));
    }
    out
}

/// Decode one length-prefixed control-message frame. The frame's payload
/// must hold exactly one record.
pub fn unframe_message(buf: &Vec<u8>, pos: usize) -> (r: Option<(Message, usize)>)
    ensures
        r matches Some((v, end)) ==> pos <= end <= buf@.len() && prefix_at(
            buf@,
            pos as int,
            enc_bytes(enc_message(v@)),
        ) && end == pos + enc_bytes(enc_message(v@)).len(),
        forall|v: MessageView|
            prefix_at(buf@, pos as int, enc_bytes(#[trigger] enc_message(v))) ==> (r matches Some(
                (x, end),
            ) && x@ == v && end == pos + enc_bytes(enc_message(v)).len()),
{
    match read_bytes(buf, pos) {
        Some((payload, end)) => {
            proof {
                assert forall|v: MessageView|
                    prefix_at(buf@, pos as int, enc_bytes(#[trigger] enc_message(v))) implies (
                payload@ == enc_message(v) && prefix_at(payload@, 0int, enc_message(v))) by {
                    assert(payload@.subrange(0int, enc_message(v).len() as int) =~= enc_message(v));
                }
            }
            match read_message(&payload, 0) {
                Some((m, used)) => {
                    if used == payload.len() {
                        proof {
                            assert(payload@ =~= enc_message(m@));
                        }
                        Some((m, end))
                    } else {
                        None
                    }
                },
                None => None,
            }
        },
        None => None,
    }
}

/// Decode one length-prefixed control-response frame. The frame's payload
/// must hold exactly one record.
pub fn unframe_response(buf: &Vec<u8>, pos: usize) -> (r: Option<(Response, usize)>)
    ensures
        r matches Some((v, end)) ==> pos <= end <= buf@.len() && prefix_at(
            buf@,
            pos as int,
            enc_bytes(enc_response(v@)),
        ) && end == pos + enc_bytes(enc_response(v@)).len(),
        forall|v: ResponseView|
            prefix_at(buf@, pos as int, enc_bytes(#[trigger] enc_response(v))) ==> (r matches Some(
                (x, end),
            ) && x@ == v && end == pos + enc_bytes(enc_response(v)).len()),
{
    match read_bytes(buf, pos) {
        Some((payload, end)) => {
            proof {
                assert forall|v: ResponseView|
                    prefix_at(buf@, pos as int, enc_bytes(#[trigger] enc_response(v))) implies (
                payload@ == enc_response(v) && prefix_at(payload@, 0int, enc_response(v))) by {
                    assert(payload@.subrange(0int, enc_response(v).len() as int) =~= enc_response(
                        v,
                    ));
                }
            }
            match read_response(&payload, 0) {
                Some((m, used)) => {
                    if used == payload.len() {
                        proof {
                            assert(payload@ =~= enc_response(m@));
                        }
                        Some((m, end))
                    } else {
                        None
                    }
                },
                None => None,
            }
        },
        None => None,
    }
}

/// Decode one length-prefixed event-stream frame. The frame's payload
/// must hold exactly one record.
pub fn unframe_log_kind(buf: &Vec<u8>, pos: usize) -> (r: Option<(LogKind, usize)>)
    ensures
        r matches Some((v, end)) ==> pos <= end <= buf@.len() && prefix_at(
            buf@,
            pos as int,
            enc_bytes(enc_log_kind(v)),
        ) && end == pos + enc_bytes(enc_log_kind(v)).len(),
        forall|v: LogKind|
            prefix_at(buf@, pos as int, enc_bytes(#[trigger] enc_log_kind(v))) ==> (r matches Some(
                (x, end),
            ) && x == v && end == pos + enc_bytes(enc_log_kind(v)).len()),
{
    match read_bytes(buf, pos) {
        Some((payload, end)) => {
            proof {
                assert forall|v: LogKind|
                    prefix_at(buf@, pos as int, enc_bytes(#[trigger] enc_log_kind(v))) implies (
                payload@ == enc_log_kind(v) && prefix_at(payload@, 0int, enc_log_kind(v))) by {
                    assert(payload@.subrange(0int, enc_log_kind(v).len() as int) =~= enc_log_kind(
                        v,
                    ));
                }
            }
            match read_log_kind(&payload, 0) {
                Some((m, used)) => {
                    if used == payload.len() {
                        proof {
                            assert(payload@ =~= enc_log_kind(m));
                        }
                        Some((m, end))
                    } else {
                        None
                    }
                },
                None => None,
            }
        },
        None => None,
    }
}

} // verus!
