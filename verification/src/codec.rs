//! Deterministic binary encoding, primitive layer.
//!
//! Integers travel little-endian at fixed width, booleans as one byte,
//! byte strings as a 64-bit length followed by the bytes. Every decoder's
//! contract has two directions: whatever it returns is the exact encoding
//! of the returned value (soundness), and wherever the encoding of some
//! value sits at the read position it returns that value (completeness).
//! Together they make `decode(encode(x)) == x` a consequence of the
//! contracts alone.
use vstd::prelude::*;

verus! {

/// The encoding `enc` sits in `buf` at offset `pos`.
pub open spec fn prefix_at(buf: Seq<u8>, pos: int, enc: Seq<u8>) -> bool {
    &&& 0 <= pos
    &&& pos + enc.len() <= buf.len()
    &&& buf.subrange(pos, pos + enc.len()) == enc
}

/// Two encodings sitting back to back form their concatenation.
pub proof fn lemma_prefix_concat(buf: Seq<u8>, pos: int, a: Seq<u8>, b: Seq<u8>)
    requires
        prefix_at(buf, pos, a),
        prefix_at(buf, pos + a.len(), b),
    ensures
        prefix_at(buf, pos, a + b),
{
    assert(buf.subrange(pos, pos + a.len() + b.len()) =~= a + b);
}

/// A concatenation sitting at `pos` splits into its halves.
pub proof fn lemma_prefix_split(buf: Seq<u8>, pos: int, a: Seq<u8>, b: Seq<u8>)
    requires
        prefix_at(buf, pos, a + b),
    ensures
        prefix_at(buf, pos, a),
        prefix_at(buf, pos + a.len(), b),
{
    assert(buf.subrange(pos, pos + a.len()) =~= (a + b).subrange(0, a.len() as int));
    assert((a + b).subrange(0, a.len() as int) =~= a);
    assert(buf.subrange(pos + a.len(), pos + a.len() + b.len())
        =~= (a + b).subrange(a.len() as int, (a.len() + b.len()) as int));
    assert((a + b).subrange(a.len() as int, (a.len() + b.len()) as int) =~= b);
}

pub open spec fn enc_u8(v: u8) -> Seq<u8> {
    seq![v]
}

pub open spec fn enc_bool(v: bool) -> Seq<u8> {
    seq![if v { 1u8 } else { 0u8 }]
}

pub open spec fn enc_u16(v: u16) -> Seq<u8> {
    seq![(v & 0xff) as u8, ((v >> 8) & 0xff) as u8]
}

pub open spec fn enc_u32(v: u32) -> Seq<u8> {
    seq![
        (v & 0xff) as u8,
        ((v >> 8) & 0xff) as u8,
        ((v >> 16) & 0xff) as u8,
        ((v >> 24) & 0xff) as u8,
    ]
}

pub open spec fn enc_u64(v: u64) -> Seq<u8> {
    seq![
        (v & 0xff) as u8,
        ((v >> 8) & 0xff) as u8,
        ((v >> 16) & 0xff) as u8,
        ((v >> 24) & 0xff) as u8,
        ((v >> 32) & 0xff) as u8,
        ((v >> 40) & 0xff) as u8,
        ((v >> 48) & 0xff) as u8,
        ((v >> 56) & 0xff) as u8,
    ]
}

pub open spec fn enc_i64(v: i64) -> Seq<u8> {
    enc_u64(v as u64)
}

/// A byte string: 64-bit length, then the bytes.
pub open spec fn enc_bytes(s: Seq<u8>) -> Seq<u8> {
    enc_u64(s.len() as u64) + s
}

proof fn lemma_u16_recompose(v: u16)
    by (bit_vector)
    ensures
        ((v & 0xff) as u8 as u16) | (((v >> 8) & 0xff) as u8 as u16) << 8 == v,
{
}

proof fn lemma_u16_decompose(b0: u8, b1: u8)
    by (bit_vector)
    ensures
        ({
            let v = (b0 as u16) | (b1 as u16) << 8;
            (v & 0xff) as u8 == b0 && ((v >> 8) & 0xff) as u8 == b1
        }),
{
}

proof fn lemma_u32_recompose(v: u32)
    by (bit_vector)
    ensures
        ((v & 0xff) as u8 as u32) | (((v >> 8) & 0xff) as u8 as u32) << 8
            | (((v >> 16) & 0xff) as u8 as u32) << 16 | (((v >> 24) & 0xff) as u8 as u32) << 24
            == v,
{
}

proof fn lemma_u32_decompose(b0: u8, b1: u8, b2: u8, b3: u8)
    by (bit_vector)
    ensures
        ({
            let v = (b0 as u32) | (b1 as u32) << 8 | (b2 as u32) << 16 | (b3 as u32) << 24;
            (v & 0xff) as u8 == b0 && ((v >> 8) & 0xff) as u8 == b1
                && ((v >> 16) & 0xff) as u8 == b2 && ((v >> 24) & 0xff) as u8 == b3
        }),
{
}

proof fn lemma_u64_recompose(v: u64)
    by (bit_vector)
    ensures
        ((v & 0xff) as u8 as u64) | (((v >> 8) & 0xff) as u8 as u64) << 8
            | (((v >> 16) & 0xff) as u8 as u64) << 16 | (((v >> 24) & 0xff) as u8 as u64) << 24
            | (((v >> 32) & 0xff) as u8 as u64) << 32 | (((v >> 40) & 0xff) as u8 as u64) << 40
            | (((v >> 48) & 0xff) as u8 as u64) << 48 | (((v >> 56) & 0xff) as u8 as u64) << 56
            == v,
{
}

proof fn lemma_u64_decompose(b0: u8, b1: u8, b2: u8, b3: u8, b4: u8, b5: u8, b6: u8, b7: u8)
    by (bit_vector)
    ensures
        ({
            let v = (b0 as u64) | (b1 as u64) << 8 | (b2 as u64) << 16 | (b3 as u64) << 24
                | (b4 as u64) << 32 | (b5 as u64) << 40 | (b6 as u64) << 48 | (b7 as u64) << 56;
            (v & 0xff) as u8 == b0 && ((v >> 8) & 0xff) as u8 == b1
                && ((v >> 16) & 0xff) as u8 == b2 && ((v >> 24) & 0xff) as u8 == b3
                && ((v >> 32) & 0xff) as u8 == b4 && ((v >> 40) & 0xff) as u8 == b5
                && ((v >> 48) & 0xff) as u8 == b6 && ((v >> 56) & 0xff) as u8 == b7
        }),
{
}

proof fn lemma_i64_as_u64(v: i64)
    by (bit_vector)
    ensures
        (v as u64) as i64 == v,
{
}

proof fn lemma_u64_as_i64(w: u64)
    by (bit_vector)
    ensures
        ((w as i64) as u64) == w,
{
}

pub fn put_u8(v: u8, out: &mut Vec<u8>)
    ensures
        final(out)@ == old(out)@ + enc_u8(v),
{
    out.push(v);
    assert(out@ =~= old(out)@ + enc_u8(v));
}

pub fn put_bool(v: bool, out: &mut Vec<u8>)
    ensures
        final(out)@ == old(out)@ + enc_bool(v),
{
    out.push(if v { 1u8 } else { 0u8 });
    assert(out@ =~= old(out)@ + enc_bool(v));
}

pub fn put_u16(v: u16, out: &mut Vec<u8>)
    ensures
        final(out)@ == old(out)@ + enc_u16(v),
{
    out.push(#[verifier::truncate] ((v & 0xff) as u8));
    out.push(#[verifier::truncate] (((v >> 8) & 0xff) as u8));
    assert(out@ =~= old(out)@ + enc_u16(v));
}

pub fn put_u32(v: u32, out: &mut Vec<u8>)
    ensures
        final(out)@ == old(out)@ + enc_u32(v),
{
    out.push(#[verifier::truncate] ((v & 0xff) as u8));
    out.push(#[verifier::truncate] (((v >> 8) & 0xff) as u8));
    out.push(#[verifier::truncate] (((v >> 16) & 0xff) as u8));
    out.push(#[verifier::truncate] (((v >> 24) & 0xff) as u8));
    assert(out@ =~= old(out)@ + enc_u32(v));
}

pub fn put_u64(v: u64, out: &mut Vec<u8>)
    ensures
        final(out)@ == old(out)@ + enc_u64(v),
{
    out.push(#[verifier::truncate] ((v & 0xff) as u8));
    out.push(#[verifier::truncate] (((v >> 8) & 0xff) as u8));
    out.push(#[verifier::truncate] (((v >> 16) & 0xff) as u8));
    out.push(#[verifier::truncate] (((v >> 24) & 0xff) as u8));
    out.push(#[verifier::truncate] (((v >> 32) & 0xff) as u8));
    out.push(#[verifier::truncate] (((v >> 40) & 0xff) as u8));
    out.push(#[verifier::truncate] (((v >> 48) & 0xff) as u8));
    out.push(#[verifier::truncate] (((v >> 56) & 0xff) as u8));
    assert(out@ =~= old(out)@ + enc_u64(v));
}

pub fn put_i64(v: i64, out: &mut Vec<u8>)
    ensures
        final(out)@ == old(out)@ + enc_i64(v),
{
    put_u64(#[verifier::truncate] (v as u64), out);
}

pub fn put_bytes(s: &Vec<u8>, out: &mut Vec<u8>)
    ensures
        final(out)@ == old(out)@ + enc_bytes(s@),
{
    put_u64(s.len() as u64, out);
    let ghost mid = out@;
    let mut i: usize = 0;
    while i < s.len()
        invariant
            i <= s.len(),
            out@ == mid + s@.subrange(0, i as int),
        decreases s.len() - i,
    {
        out.push(s[i]);
        i = i + 1;
        assert(out@ =~= mid + s@.subrange(0, i as int));
    }
    assert(s@.subrange(0, s@.len() as int) =~= s@);
    assert(out@ =~= old(out)@ + enc_bytes(s@));
}

pub fn read_u8(buf: &Vec<u8>, pos: usize) -> (r: Option<(u8, usize)>)
    ensures
        r matches Some((v, end)) ==> end == pos + 1 && prefix_at(buf@, pos as int, enc_u8(v)),
        forall|v: u8|
            prefix_at(buf@, pos as int, #[trigger] enc_u8(v)) ==> r == Some::<(u8, usize)>(
                (v, (pos + 1) as usize),
            ),
{
    if pos < buf.len() {
        let v = buf[pos];
        assert(buf@.subrange(pos as int, pos + 1) =~= enc_u8(v));
        assert forall|w: u8| prefix_at(buf@, pos as int, #[trigger] enc_u8(w)) implies w == v by {
            assert(buf@.subrange(pos as int, pos + 1)[0] == w);
        }
        Some((v, pos + 1))
    } else {
        None
    }
}

pub fn read_bool(buf: &Vec<u8>, pos: usize) -> (r: Option<(bool, usize)>)
    ensures
        r matches Some((v, end)) ==> end == pos + 1 && prefix_at(buf@, pos as int, enc_bool(v)),
        forall|v: bool|
            prefix_at(buf@, pos as int, #[trigger] enc_bool(v)) ==> r == Some::<(bool, usize)>(
                (v, (pos + 1) as usize),
            ),
{
    if pos < buf.len() {
        let b = buf[pos];
        if b == 0 || b == 1 {
            let v = b == 1;
            assert(buf@.subrange(pos as int, pos + 1) =~= enc_bool(v));
            assert forall|w: bool|
                prefix_at(buf@, pos as int, #[trigger] enc_bool(w)) implies w == v by {
                assert(buf@.subrange(pos as int, pos + 1)[0] == if w { 1u8 } else { 0u8 });
            }
            Some((v, pos + 1))
        } else {
            assert forall|w: bool|
                !prefix_at(buf@, pos as int, #[trigger] enc_bool(w)) by {
                if prefix_at(buf@, pos as int, enc_bool(w)) {
                    assert(buf@.subrange(pos as int, pos + 1)[0] == if w { 1u8 } else { 0u8 });
                }
            }
            None
        }
    } else {
        None
    }
}

pub fn read_u16(buf: &Vec<u8>, pos: usize) -> (r: Option<(u16, usize)>)
    ensures
        r matches Some((v, end)) ==> end == pos + 2 && prefix_at(buf@, pos as int, enc_u16(v)),
        forall|v: u16|
            prefix_at(buf@, pos as int, #[trigger] enc_u16(v)) ==> r == Some::<(u16, usize)>(
                (v, (pos + 2) as usize),
            ),
{
    if buf.len() >= 2 && pos <= buf.len() - 2 {
        let b0 = buf[pos];
        let b1 = buf[pos + 1];
        let v = (b0 as u16) | (b1 as u16) << 8;
        proof {
            lemma_u16_decompose(b0, b1);
            assert(buf@.subrange(pos as int, pos + 2) =~= enc_u16(v));
            assert forall|w: u16|
                prefix_at(buf@, pos as int, #[trigger] enc_u16(w)) implies w == v by {
                assert(buf@.subrange(pos as int, pos + 2)[0] == (w & 0xff) as u8);
                assert(buf@.subrange(pos as int, pos + 2)[1] == ((w >> 8) & 0xff) as u8);
                lemma_u16_recompose(w);
            }
        }
        Some((v, pos + 2))
    } else {
        None
    }
}

pub fn read_u32(buf: &Vec<u8>, pos: usize) -> (r: Option<(u32, usize)>)
    ensures
        r matches Some((v, end)) ==> end == pos + 4 && prefix_at(buf@, pos as int, enc_u32(v)),
        forall|v: u32|
            prefix_at(buf@, pos as int, #[trigger] enc_u32(v)) ==> r == Some::<(u32, usize)>(
                (v, (pos + 4) as usize),
            ),
{
    if buf.len() >= 4 && pos <= buf.len() - 4 {
        let b0 = buf[pos];
        let b1 = buf[pos + 1];
        let b2 = buf[pos + 2];
        let b3 = buf[pos + 3];
        let v = (b0 as u32) | (b1 as u32) << 8 | (b2 as u32) << 16 | (b3 as u32) << 24;
        proof {
            lemma_u32_decompose(b0, b1, b2, b3);
            assert(buf@.subrange(pos as int, pos + 4) =~= enc_u32(v));
            assert forall|w: u32|
                prefix_at(buf@, pos as int, #[trigger] enc_u32(w)) implies w == v by {
                assert(buf@.subrange(pos as int, pos + 4)[0] == (w & 0xff) as u8);
                assert(buf@.subrange(pos as int, pos + 4)[1] == ((w >> 8) & 0xff) as u8);
                assert(buf@.subrange(pos as int, pos + 4)[2] == ((w >> 16) & 0xff) as u8);
                assert(buf@.subrange(pos as int, pos + 4)[3] == ((w >> 24) & 0xff) as u8);
                lemma_u32_recompose(w);
            }
        }
        Some((v, pos + 4))
    } else {
        None
    }
}

pub fn read_u64(buf: &Vec<u8>, pos: usize) -> (r: Option<(u64, usize)>)
    ensures
        r matches Some((v, end)) ==> end == pos + 8 && prefix_at(buf@, pos as int, enc_u64(v)),
        forall|v: u64|
            prefix_at(buf@, pos as int, #[trigger] enc_u64(v)) ==> r == Some::<(u64, usize)>(
                (v, (pos + 8) as usize),
            ),
{
    if buf.len() >= 8 && pos <= buf.len() - 8 {
        let b0 = buf[pos];
        let b1 = buf[pos + 1];
        let b2 = buf[pos + 2];
        let b3 = buf[pos + 3];
        let b4 = buf[pos + 4];
        let b5 = buf[pos + 5];
        let b6 = buf[pos + 6];
        let b7 = buf[pos + 7];
        let v = (b0 as u64) | (b1 as u64) << 8 | (b2 as u64) << 16 | (b3 as u64) << 24
            | (b4 as u64) << 32 | (b5 as u64) << 40 | (b6 as u64) << 48 | (b7 as u64) << 56;
        proof {
            lemma_u64_decompose(b0, b1, b2, b3, b4, b5, b6, b7);
            assert(buf@.subrange(pos as int, pos + 8) =~= enc_u64(v));
            assert forall|w: u64|
                prefix_at(buf@, pos as int, #[trigger] enc_u64(w)) implies w == v by {
                assert(buf@.subrange(pos as int, pos + 8)[0] == (w & 0xff) as u8);
                assert(buf@.subrange(pos as int, pos + 8)[1] == ((w >> 8) & 0xff) as u8);
                assert(buf@.subrange(pos as int, pos + 8)[2] == ((w >> 16) & 0xff) as u8);
                assert(buf@.subrange(pos as int, pos + 8)[3] == ((w >> 24) & 0xff) as u8);
                assert(buf@.subrange(pos as int, pos + 8)[4] == ((w >> 32) & 0xff) as u8);
                assert(buf@.subrange(pos as int, pos + 8)[5] == ((w >> 40) & 0xff) as u8);
                assert(buf@.subrange(pos as int, pos + 8)[6] == ((w >> 48) & 0xff) as u8);
                assert(buf@.subrange(pos as int, pos + 8)[7] == ((w >> 56) & 0xff) as u8);
                lemma_u64_recompose(w);
            }
        }
        Some((v, pos + 8))
    } else {
        None
    }
}

pub fn read_i64(buf: &Vec<u8>, pos: usize) -> (r: Option<(i64, usize)>)
    ensures
        r matches Some((v, end)) ==> end == pos + 8 && prefix_at(buf@, pos as int, enc_i64(v)),
        forall|v: i64|
            prefix_at(buf@, pos as int, #[trigger] enc_i64(v)) ==> r == Some::<(i64, usize)>(
                (v, (pos + 8) as usize),
            ),
{
    match read_u64(buf, pos) {
        Some((w, end)) => {
            let v = #[verifier::truncate] (w as i64);
            proof {
                lemma_u64_as_i64(w);
                assert forall|x: i64|
                    prefix_at(buf@, pos as int, #[trigger] enc_i64(x)) implies x == v by {
                    lemma_i64_as_u64(x);
                }
            }
            Some((v, end))
        },
        None => None,
    }
}

pub fn read_bytes(buf: &Vec<u8>, pos: usize) -> (r: Option<(Vec<u8>, usize)>)
    ensures
        r matches Some((v, end)) ==> end == pos + 8 + v@.len() && prefix_at(
            buf@,
            pos as int,
            enc_bytes(v@),
        ),
        forall|s: Seq<u8>|
            prefix_at(buf@, pos as int, #[trigger] enc_bytes(s)) ==> (r matches Some((v, end))
                && v@ == s && end == pos + 8 + s.len()),
{
    let n_read = read_u64(buf, pos);
    match n_read {
        Some((n, body)) => {
            if n <= (buf.len() - body) as u64 {
                let len = n as usize;
                let mut v: Vec<u8> = Vec::new();
                let mut i: usize = 0;
                while i < len
                    invariant
                        i <= len,
                        body + len <= buf.len(),
                        v@ == buf@.subrange(body as int, body + i),
                    decreases len - i,
                {
                    v.push(buf[body + i]);
                    i = i + 1;
                    assert(v@ =~= buf@.subrange(body as int, body + i));
                }
                proof {
                    assert(prefix_at(buf@, body as int, v@));
                    assert(enc_u64(n) + v@ =~= enc_bytes(v@));
                    lemma_prefix_concat(buf@, pos as int, enc_u64(n), v@);
                    assert forall|s: Seq<u8>|
                        prefix_at(buf@, pos as int, #[trigger] enc_bytes(s)) implies v@ == s by {
                        lemma_prefix_split(buf@, pos as int, enc_u64(s.len() as u64), s);
                        assert(s.len() as u64 == n);
                        assert(s =~= buf@.subrange(body as int, body + s.len()));
                    }
                }
                Some((v, body + len))
            } else {
                proof {
                    assert forall|s: Seq<u8>|
                        !prefix_at(buf@, pos as int, #[trigger] enc_bytes(s)) by {
                        if prefix_at(buf@, pos as int, enc_bytes(s)) {
                            lemma_prefix_split(buf@, pos as int, enc_u64(s.len() as u64), s);
                            assert(s.len() as u64 == n);
                        }
                    }
                }
                None
            }
        },
        None => {
            proof {
                assert forall|s: Seq<u8>|
                    !prefix_at(buf@, pos as int, #[trigger] enc_bytes(s)) by {
                    if prefix_at(buf@, pos as int, enc_bytes(s)) {
                        lemma_prefix_split(buf@, pos as int, enc_u64(s.len() as u64), s);
                    }
                }
            }
            None
        },
    }
}

} // verus!
