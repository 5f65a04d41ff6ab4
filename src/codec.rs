use vstd::prelude::*;
use vstd::slice::slice_subrange;
use crate::prover::DecodeError;
use crate::group::{g1_decode_of, g2_decode_of, lemma_g1_len, lemma_g2_len, G1, G2};

verus! {

/// The 8-byte little-endian length field at `pos`.
pub open spec fn len_at(b: Seq<u8>, pos: int) -> int {
    u64_of_bytes(b[pos], b[pos + 1], b[pos + 2], b[pos + 3], b[pos + 4], b[pos + 5], b[pos + 6], b[pos + 7]) as int
}

/// The 64-bit integer with little-endian bytes `b0 .. b7`.
pub open spec fn u64_of_bytes(b0: u8, b1: u8, b2: u8, b3: u8, b4: u8, b5: u8, b6: u8, b7: u8) -> u64 {
    (b0 as u64) | ((b1 as u64) << 8u64) | ((b2 as u64) << 16u64) | ((b3 as u64) << 24u64) | ((b4 as u64)
        << 32u64) | ((b5 as u64) << 40u64) | ((b6 as u64) << 48u64) | ((b7 as u64) << 56u64)
}

/// `n` on eight bytes, least significant first.
pub open spec fn len_bytes(n: u64) -> Seq<u8> {
    seq![
        (n & 0xff) as u8,
        ((n >> 8u64) & 0xff) as u8,
        ((n >> 16u64) & 0xff) as u8,
        ((n >> 24u64) & 0xff) as u8,
        ((n >> 32u64) & 0xff) as u8,
        ((n >> 40u64) & 0xff) as u8,
        ((n >> 48u64) & 0xff) as u8,
        ((n >> 56u64) & 0xff) as u8,
    ]
}

/// The points' encodings, one after the other.
pub open spec fn g1s_bytes(ps: Seq<G1>) -> Seq<u8>
    decreases ps.len(),
{
    if ps.len() == 0 {
        Seq::empty()
    } else {
        g1s_bytes(ps.drop_last()) + ps.last()@
    }
}

pub open spec fn g2s_bytes(qs: Seq<G2>) -> Seq<u8>
    decreases qs.len(),
{
    if qs.len() == 0 {
        Seq::empty()
    } else {
        g2s_bytes(qs.drop_last()) + qs.last()@
    }
}

proof fn lemma_len_bytes(n: u64)
    ensures
        u64_of_bytes(
            (n & 0xff) as u8,
            ((n >> 8u64) & 0xff) as u8,
            ((n >> 16u64) & 0xff) as u8,
            ((n >> 24u64) & 0xff) as u8,
            ((n >> 32u64) & 0xff) as u8,
            ((n >> 40u64) & 0xff) as u8,
            ((n >> 48u64) & 0xff) as u8,
            ((n >> 56u64) & 0xff) as u8,
        ) == n,
{
    assert(((((n & 0xff) as u8) as u64) | (((((n >> 8u64) & 0xff) as u8) as u64) << 8u64) | (((((n >> 16u64)
        & 0xff) as u8) as u64) << 16u64) | (((((n >> 24u64) & 0xff) as u8) as u64) << 24u64) | (((((n
        >> 32u64) & 0xff) as u8) as u64) << 32u64) | (((((n >> 40u64) & 0xff) as u8) as u64) << 40u64)
        | (((((n >> 48u64) & 0xff) as u8) as u64) << 48u64) | (((((n >> 56u64) & 0xff) as u8) as u64)
        << 56u64)) == n) by (bit_vector);
}

/// `bytes` holds at `pos` a list of points of G1: its length on eight bytes,
/// then each point compressed.
pub open spec fn g1_list_at(bytes: Seq<u8>, pos: int, ps: Seq<G1>) -> bool {
    &&& 0 <= pos
    &&& pos + 8 + 48 * ps.len() <= bytes.len()
    &&& len_at(bytes, pos) == ps.len()
    &&& forall|i: int|
        0 <= i < ps.len() ==> g1_enc_ok(
            bytes.subrange(pos + 8 + 48 * i, pos + 8 + 48 * i + 48),
            #[trigger] ps[i],
        )
}

/// `bytes` holds at `pos` a list of points of G2.
pub open spec fn g2_list_at(bytes: Seq<u8>, pos: int, qs: Seq<G2>) -> bool {
    &&& 0 <= pos
    &&& pos + 8 + 96 * qs.len() <= bytes.len()
    &&& len_at(bytes, pos) == qs.len()
    &&& forall|i: int|
        0 <= i < qs.len() ==> g2_enc_ok(
            bytes.subrange(pos + 8 + 96 * i, pos + 8 + 96 * i + 96),
            #[trigger] qs[i],
        )
}

/// `e` is the canonical encoding of `p`: its own bytes, which decode to it.
pub open spec fn g1_enc_ok(e: Seq<u8>, p: G1) -> bool {
    e == p@ && g1_decode_of(p@) == Some(p@)
}

pub open spec fn g2_enc_ok(e: Seq<u8>, q: G2) -> bool {
    e == q@ && g2_decode_of(q@) == Some(q@)
}

pub open spec fn g1_at(bytes: Seq<u8>, pos: int, p: G1) -> bool {
    0 <= pos && pos + 48 <= bytes.len() && g1_enc_ok(bytes.subrange(pos, pos + 48), p)
}

pub open spec fn g2_at(bytes: Seq<u8>, pos: int, q: G2) -> bool {
    0 <= pos && pos + 96 <= bytes.len() && g2_enc_ok(bytes.subrange(pos, pos + 96), q)
}

fn same_bytes(a: &Vec<u8>, b: &[u8]) -> (r: bool)
    ensures
        r == (a@ == b@),
{
    if a.len() != b.len() {
        return false;
    }
    let mut i: usize = 0;
    while i < a.len()
        invariant
            0 <= i <= a.len(),
            a.len() == b.len(),
            forall|k: int| 0 <= k < i ==> a@[k] == b@[k],
        decreases a.len() - i,
    {
        if a[i] != b[i] {
            return false;
        }
        i = i + 1;
    }
    assert(a@ =~= b@);
    true
}

/// Decodes a point of G1 that must be in canonical form: a point whose
/// encoding differs from `piece` is refused.
pub fn decode_g1(piece: &[u8]) -> (r: Result<G1, DecodeError>)
    ensures
        r matches Ok(p) ==> g1_enc_ok(piece@, p),
        (exists|p: G1| g1_enc_ok(piece@, p)) <==> r is Ok,
        r is Err ==> r == Err::<G1, DecodeError>(DecodeError::InvalidPoint),
{
    match G1::from_bytes(piece) {
        Some(p) => {
            let enc = p.to_bytes();
            if same_bytes(&enc, piece) {
                assert(g1_enc_ok(piece@, p));
                Ok(p)
            } else {
                proof {
                    if exists|w: G1| g1_enc_ok(piece@, w) {
                        let w = choose|w: G1| g1_enc_ok(piece@, w);
                        assert(g1_decode_of(piece@) == Some(w@));
                    }
                }
                Err(DecodeError::InvalidPoint)
            }
        },
        None => {
            proof {
                if exists|w: G1| g1_enc_ok(piece@, w) {
                    let w = choose|w: G1| g1_enc_ok(piece@, w);
                    assert(g1_decode_of(piece@) == Some(w@));
                }
            }
            Err(DecodeError::InvalidPoint)
        },
    }
}

/// Decodes a point of G2 that must be in canonical form.
pub fn decode_g2(piece: &[u8]) -> (r: Result<G2, DecodeError>)
    ensures
        r matches Ok(q) ==> g2_enc_ok(piece@, q),
        (exists|q: G2| g2_enc_ok(piece@, q)) <==> r is Ok,
        r is Err ==> r == Err::<G2, DecodeError>(DecodeError::InvalidPoint),
{
    match G2::from_bytes(piece) {
        Some(q) => {
            let enc = q.to_bytes();
            if same_bytes(&enc, piece) {
                assert(g2_enc_ok(piece@, q));
                Ok(q)
            } else {
                proof {
                    if exists|w: G2| g2_enc_ok(piece@, w) {
                        let w = choose|w: G2| g2_enc_ok(piece@, w);
                        assert(g2_decode_of(piece@) == Some(w@));
                    }
                }
                Err(DecodeError::InvalidPoint)
            }
        },
        None => {
            proof {
                if exists|w: G2| g2_enc_ok(piece@, w) {
                    let w = choose|w: G2| g2_enc_ok(piece@, w);
                    assert(g2_decode_of(piece@) == Some(w@));
                }
            }
            Err(DecodeError::InvalidPoint)
        },
    }
}

/// Appends a point of G1.
pub fn put_g1(out: &mut Vec<u8>, p: &G1)
    ensures
        final(out)@ == old(out)@ + p@,
        g1_at(final(out)@, old(out)@.len() as int, *p),
{
    let mut b = p.to_bytes();
    let ghost old_out = out@;
    out.append(&mut b);
    assert(out@.subrange(old_out.len() as int, old_out.len() + 48int) =~= p@);
}

/// Appends a point of G2.
pub fn put_g2(out: &mut Vec<u8>, q: &G2)
    ensures
        final(out)@ == old(out)@ + q@,
        g2_at(final(out)@, old(out)@.len() as int, *q),
{
    let mut b = q.to_bytes();
    let ghost old_out = out@;
    out.append(&mut b);
    assert(out@.subrange(old_out.len() as int, old_out.len() + 96int) =~= q@);
}

/// Appends `n` on eight bytes, least significant first.
pub fn put_len(out: &mut Vec<u8>, n: usize)
    ensures
        final(out)@ == old(out)@ + len_bytes(n as u64),
        len_at(final(out)@, old(out)@.len() as int) == n,
{
    let x = n as u64;
    out.push((x & 0xff) as u8);
    out.push(((x >> 8u64) & 0xff) as u8);
    out.push(((x >> 16u64) & 0xff) as u8);
    out.push(((x >> 24u64) & 0xff) as u8);
    out.push(((x >> 32u64) & 0xff) as u8);
    out.push(((x >> 40u64) & 0xff) as u8);
    out.push(((x >> 48u64) & 0xff) as u8);
    out.push(((x >> 56u64) & 0xff) as u8);
    assert(out@ =~= old(out)@ + len_bytes(x));
    proof {
        lemma_len_bytes(x);
    }
}

/// Appends a list of points of G1 with its length.
pub fn put_g1s(out: &mut Vec<u8>, ps: &Vec<G1>)
    ensures
        final(out)@ == old(out)@ + len_bytes(ps.len() as u64) + g1s_bytes(ps@),
        final(out)@.subrange(0, old(out)@.len() as int) == old(out)@,
        final(out)@.len() == old(out)@.len() + 8 + 48 * ps.len(),
        g1_list_at(final(out)@, old(out)@.len() as int, ps@),
{
    let ghost start = out@.len() as int;
    put_len(out, ps.len());
    let mut i: usize = 0;
    while i < ps.len()
        invariant
            0 <= i <= ps.len(),
            start == old(out)@.len(),
            out@ == old(out)@ + len_bytes(ps.len() as u64) + g1s_bytes(ps@.take(i as int)),
            out@.len() == start + 8 + 48 * i,
            out@.subrange(0, start) == old(out)@,
            len_at(out@, start) == ps.len(),
            forall|k: int|
                0 <= k < i ==> g1_enc_ok(
                    out@.subrange(start + 8 + 48 * k, start + 8 + 48 * k + 48),
                    #[trigger] ps@[k],
                ),
        decreases ps.len() - i,
    {
        let ghost before = out@;
        put_g1(out, &ps[i]);
        proof {
            lemma_g1_len(ps@[i as int]);
        }
        assert(out@.len() == before.len() + 48);
        assert forall|j: int| 0 <= j < before.len() implies out@[j] == before[j] by {}
        assert forall|k: int| 0 <= k < i + 1 implies g1_enc_ok(
            out@.subrange(start + 8 + 48 * k, start + 8 + 48 * k + 48),
            #[trigger] ps@[k],
        ) by {
            if k < i {
                assert(out@.subrange(start + 8 + 48 * k, start + 8 + 48 * k + 48)
                    =~= before.subrange(start + 8 + 48 * k, start + 8 + 48 * k + 48));
            }
        }
        assert(out@.subrange(0, start) =~= before.subrange(0, start));
        assert(ps@.take(i + 1).drop_last() =~= ps@.take(i as int));
        assert(out@ =~= old(out)@ + len_bytes(ps.len() as u64) + g1s_bytes(ps@.take(i + 1)));
        i = i + 1;
    }
    assert(ps@.take(ps.len() as int) =~= ps@);
}

/// Appends a list of points of G2 with its length.
pub fn put_g2s(out: &mut Vec<u8>, qs: &Vec<G2>)
    ensures
        final(out)@ == old(out)@ + len_bytes(qs.len() as u64) + g2s_bytes(qs@),
        final(out)@.subrange(0, old(out)@.len() as int) == old(out)@,
        final(out)@.len() == old(out)@.len() + 8 + 96 * qs.len(),
        g2_list_at(final(out)@, old(out)@.len() as int, qs@),
{
    let ghost start = out@.len() as int;
    put_len(out, qs.len());
    let mut i: usize = 0;
    while i < qs.len()
        invariant
            0 <= i <= qs.len(),
            start == old(out)@.len(),
            out@ == old(out)@ + len_bytes(qs.len() as u64) + g2s_bytes(qs@.take(i as int)),
            out@.len() == start + 8 + 96 * i,
            out@.subrange(0, start) == old(out)@,
            len_at(out@, start) == qs.len(),
            forall|k: int|
                0 <= k < i ==> g2_enc_ok(
                    out@.subrange(start + 8 + 96 * k, start + 8 + 96 * k + 96),
                    #[trigger] qs@[k],
                ),
        decreases qs.len() - i,
    {
        let ghost before = out@;
        put_g2(out, &qs[i]);
        proof {
            lemma_g2_len(qs@[i as int]);
        }
        assert(out@.len() == before.len() + 96);
        assert forall|j: int| 0 <= j < before.len() implies out@[j] == before[j] by {}
        assert forall|k: int| 0 <= k < i + 1 implies g2_enc_ok(
            out@.subrange(start + 8 + 96 * k, start + 8 + 96 * k + 96),
            #[trigger] qs@[k],
        ) by {
            if k < i {
                assert(out@.subrange(start + 8 + 96 * k, start + 8 + 96 * k + 96)
                    =~= before.subrange(start + 8 + 96 * k, start + 8 + 96 * k + 96));
            }
        }
        assert(out@.subrange(0, start) =~= before.subrange(0, start));
        assert(qs@.take(i + 1).drop_last() =~= qs@.take(i as int));
        assert(out@ =~= old(out)@ + len_bytes(qs.len() as u64) + g2s_bytes(qs@.take(i + 1)));
        i = i + 1;
    }
    assert(qs@.take(qs.len() as int) =~= qs@);
}

/// What `a` says at `[x, y)` stays said once more bytes follow it.
pub proof fn lemma_extended(a: Seq<u8>, b: Seq<u8>, x: int, y: int)
    requires
        0 <= x <= y <= a.len() <= b.len(),
        b.subrange(0, a.len() as int) == a,
    ensures
        b.subrange(x, y) == a.subrange(x, y),
{
    assert forall|j: int| x <= j < y implies b[j] == a[j] by {
        assert(b.subrange(0, a.len() as int)[j] == b[j]);
    }
    assert(b.subrange(x, y) =~= a.subrange(x, y));
}

pub proof fn lemma_g1_at_extended(a: Seq<u8>, b: Seq<u8>, pos: int, p: G1)
    requires
        g1_at(a, pos, p),
        a.len() <= b.len(),
        b.subrange(0, a.len() as int) == a,
    ensures
        g1_at(b, pos, p),
{
    lemma_extended(a, b, pos, pos + 48);
}

pub proof fn lemma_g2_at_extended(a: Seq<u8>, b: Seq<u8>, pos: int, q: G2)
    requires
        g2_at(a, pos, q),
        a.len() <= b.len(),
        b.subrange(0, a.len() as int) == a,
    ensures
        g2_at(b, pos, q),
{
    lemma_extended(a, b, pos, pos + 96);
}

pub proof fn lemma_g1_list_extended(a: Seq<u8>, b: Seq<u8>, pos: int, ps: Seq<G1>)
    requires
        g1_list_at(a, pos, ps),
        a.len() <= b.len(),
        b.subrange(0, a.len() as int) == a,
    ensures
        g1_list_at(b, pos, ps),
{
    lemma_extended(a, b, pos, pos + 8);
    assert(b.subrange(pos, pos + 8)[0] == b[pos]);
    assert(b.subrange(pos, pos + 8)[1] == b[pos + 1]);
    assert(b.subrange(pos, pos + 8)[2] == b[pos + 2]);
    assert(b.subrange(pos, pos + 8)[3] == b[pos + 3]);
    assert(b.subrange(pos, pos + 8)[4] == b[pos + 4]);
    assert(b.subrange(pos, pos + 8)[5] == b[pos + 5]);
    assert(b.subrange(pos, pos + 8)[6] == b[pos + 6]);
    assert(b.subrange(pos, pos + 8)[7] == b[pos + 7]);
    assert forall|i: int| 0 <= i < ps.len() implies g1_enc_ok(
        b.subrange(pos + 8 + 48 * i, pos + 8 + 48 * i + 48),
        #[trigger] ps[i],
    ) by {
        lemma_extended(a, b, pos + 8 + 48 * i, pos + 8 + 48 * i + 48);
    }
}

pub proof fn lemma_g2_list_extended(a: Seq<u8>, b: Seq<u8>, pos: int, qs: Seq<G2>)
    requires
        g2_list_at(a, pos, qs),
        a.len() <= b.len(),
        b.subrange(0, a.len() as int) == a,
    ensures
        g2_list_at(b, pos, qs),
{
    lemma_extended(a, b, pos, pos + 8);
    assert(b.subrange(pos, pos + 8)[0] == b[pos]);
    assert(b.subrange(pos, pos + 8)[1] == b[pos + 1]);
    assert(b.subrange(pos, pos + 8)[2] == b[pos + 2]);
    assert(b.subrange(pos, pos + 8)[3] == b[pos + 3]);
    assert(b.subrange(pos, pos + 8)[4] == b[pos + 4]);
    assert(b.subrange(pos, pos + 8)[5] == b[pos + 5]);
    assert(b.subrange(pos, pos + 8)[6] == b[pos + 6]);
    assert(b.subrange(pos, pos + 8)[7] == b[pos + 7]);
    assert forall|i: int| 0 <= i < qs.len() implies g2_enc_ok(
        b.subrange(pos + 8 + 96 * i, pos + 8 + 96 * i + 96),
        #[trigger] qs[i],
    ) by {
        lemma_extended(a, b, pos + 8 + 96 * i, pos + 8 + 96 * i + 96);
    }
}

/// Reads a point of G1 at `pos`.
pub fn read_g1(data: &[u8], pos: usize) -> (r: Result<G1, DecodeError>)
    ensures
        r matches Ok(p) ==> g1_at(data@, pos as int, p),
        (exists|p: G1| g1_at(data@, pos as int, p)) ==> r is Ok,
{
    if pos > data.len() || data.len() - pos < 48 {
        return Err(DecodeError::MalformedKey);
    }
    decode_g1(slice_subrange(data, pos, pos + 48))
}

/// Reads a point of G2 at `pos`.
pub fn read_g2(data: &[u8], pos: usize) -> (r: Result<G2, DecodeError>)
    ensures
        r matches Ok(q) ==> g2_at(data@, pos as int, q),
        (exists|q: G2| g2_at(data@, pos as int, q)) ==> r is Ok,
{
    if pos > data.len() || data.len() - pos < 96 {
        return Err(DecodeError::MalformedKey);
    }
    decode_g2(slice_subrange(data, pos, pos + 96))
}

fn read_len(data: &[u8], pos: usize) -> (r: u64)
    requires
        pos + 8 <= data.len(),
    ensures
        r == len_at(data@, pos as int),
{
    (data[pos] as u64) | ((data[pos + 1] as u64) << 8u64) | ((data[pos + 2] as u64) << 16u64) | ((data[pos
        + 3] as u64) << 24u64) | ((data[pos + 4] as u64) << 32u64) | ((data[pos + 5] as u64) << 40u64)
        | ((data[pos + 6] as u64) << 48u64) | ((data[pos + 7] as u64) << 56u64)
}

/// Reads a list of points of G1 at `pos`, and where it ends.
pub fn read_g1s(data: &[u8], pos: usize) -> (r: Result<(Vec<G1>, usize), DecodeError>)
    ensures
        r matches Ok((ps, next)) ==> g1_list_at(data@, pos as int, ps@) && next == pos + 8 + 48
            * ps.len(),
        (exists|ps: Seq<G1>| g1_list_at(data@, pos as int, ps)) ==> r is Ok,
{
    if pos > data.len() || data.len() - pos < 8 {
        return Err(DecodeError::MalformedKey);
    }
    let len = read_len(data, pos);
    let room = data.len() - pos - 8;
    if len > (room / 48) as u64 {
        proof {
            if exists|ps: Seq<G1>| g1_list_at(data@, pos as int, ps) {
                let ps = choose|ps: Seq<G1>| g1_list_at(data@, pos as int, ps);
                assert(48 * len <= room);
                assert(len <= room / 48) by (nonlinear_arith)
                    requires 48 * len <= room;
            }
        }
        return Err(DecodeError::MalformedKey);
    }
    let n = len as usize;
    assert(48 * n <= room) by (nonlinear_arith)
        requires n <= room / 48;
    let base = pos + 8;
    let mut ps: Vec<G1> = Vec::new();
    let mut i: usize = 0;
    while i < n
        invariant
            0 <= i <= n,
            base == pos + 8,
            48 * n <= room,
            room == data.len() - pos - 8,
            n == len_at(data@, pos as int),
            ps.len() == i,
            forall|k: int|
                0 <= k < i ==> g1_enc_ok(
                    data@.subrange(base + 48 * k, base + 48 * k + 48),
                    #[trigger] ps@[k],
                ),
        decreases n - i,
    {
        let at = base + 48 * i;
        match decode_g1(slice_subrange(data, at, at + 48)) {
            Ok(p) => ps.push(p),
            Err(e) => {
                proof {
                    if exists|qs: Seq<G1>| g1_list_at(data@, pos as int, qs) {
                        let qs = choose|qs: Seq<G1>| g1_list_at(data@, pos as int, qs);
                        assert(g1_enc_ok(data@.subrange(at as int, at + 48), qs[i as int]));
                    }
                }
                return Err(e);
            },
        }
        i = i + 1;
    }
    Ok((ps, base + 48 * n))
}

/// Reads a list of points of G2 at `pos`, and where it ends.
pub fn read_g2s(data: &[u8], pos: usize) -> (r: Result<(Vec<G2>, usize), DecodeError>)
    ensures
        r matches Ok((qs, next)) ==> g2_list_at(data@, pos as int, qs@) && next == pos + 8 + 96
            * qs.len(),
        (exists|qs: Seq<G2>| g2_list_at(data@, pos as int, qs)) ==> r is Ok,
{
    if pos > data.len() || data.len() - pos < 8 {
        return Err(DecodeError::MalformedKey);
    }
    let len = read_len(data, pos);
    let room = data.len() - pos - 8;
    if len > (room / 96) as u64 {
        proof {
            if exists|qs: Seq<G2>| g2_list_at(data@, pos as int, qs) {
                let qs = choose|qs: Seq<G2>| g2_list_at(data@, pos as int, qs);
                assert(96 * len <= room);
                assert(len <= room / 96) by (nonlinear_arith)
                    requires 96 * len <= room;
            }
        }
        return Err(DecodeError::MalformedKey);
    }
    let n = len as usize;
    assert(96 * n <= room) by (nonlinear_arith)
        requires n <= room / 96;
    let base = pos + 8;
    let mut qs: Vec<G2> = Vec::new();
    let mut i: usize = 0;
    while i < n
        invariant
            0 <= i <= n,
            base == pos + 8,
            96 * n <= room,
            room == data.len() - pos - 8,
            n == len_at(data@, pos as int),
            qs.len() == i,
            forall|k: int|
                0 <= k < i ==> g2_enc_ok(
                    data@.subrange(base + 96 * k, base + 96 * k + 96),
                    #[trigger] qs@[k],
                ),
        decreases n - i,
    {
        let at = base + 96 * i;
        match decode_g2(slice_subrange(data, at, at + 96)) {
            Ok(q) => qs.push(q),
            Err(e) => {
                proof {
                    if exists|ws: Seq<G2>| g2_list_at(data@, pos as int, ws) {
                        let ws = choose|ws: Seq<G2>| g2_list_at(data@, pos as int, ws);
                        assert(g2_enc_ok(data@.subrange(at as int, at + 96), ws[i as int]));
                    }
                }
                return Err(e);
            },
        }
        i = i + 1;
    }
    Ok((qs, base + 96 * n))
}

} // verus!
