//! The wire codec: a compact, deterministic binary encoding of the seven
//! protocol messages, self-delimiting within a single datagram.
//!
//! Every integer travels as 8 little-endian bytes; byte strings and lists
//! are length-prefixed.  A message is one tag byte followed by its fields.
//! `encode_msg` produces exactly `msg_bytes`, and `decode_msg` accepts a
//! buffer only if it is exactly the encoding of the returned message.

use vstd::prelude::*;

use crate::protocol::{Ballot, PaxosMsg, Promise};

verus! {

/// The 8 little-endian bytes of a 64-bit value.
pub open spec fn u64_le_seq(x: u64) -> Seq<u8> {
    seq![
        (x % 0x100) as u8,
        ((x / 0x100) % 0x100) as u8,
        ((x / 0x10000) % 0x100) as u8,
        ((x / 0x1000000) % 0x100) as u8,
        ((x / 0x100000000) % 0x100) as u8,
        ((x / 0x10000000000) % 0x100) as u8,
        ((x / 0x1000000000000) % 0x100) as u8,
        ((x / 0x100000000000000) % 0x100) as u8,
    ]
}

/// The value of the 8 little-endian bytes of `s` starting at `pos`.
pub open spec fn le_val8(s: Seq<u8>, pos: int) -> int {
    s[pos] + 0x100 * (s[pos + 1] + 0x100 * (s[pos + 2] + 0x100 * (s[pos + 3] + 0x100 * (s[pos + 4]
        + 0x100 * (s[pos + 5] + 0x100 * (s[pos + 6] + 0x100 * s[pos + 7]))))))
}

/// Reading back the bytes of `x` yields `x`.
pub proof fn lemma_u64_le_round_trip(x: u64)
    ensures
        le_val8(u64_le_seq(x), 0) == x,
{
    assert(x % 0x100 + 0x100 * ((x / 0x100) % 0x100 + 0x100 * ((x / 0x10000) % 0x100 + 0x100 * ((x
        / 0x1000000) % 0x100 + 0x100 * ((x / 0x100000000) % 0x100 + 0x100 * ((x / 0x10000000000)
        % 0x100 + 0x100 * ((x / 0x1000000000000) % 0x100 + 0x100 * ((x / 0x100000000000000)
        % 0x100))))))) == x) by (bit_vector);
}

/// The value at `pos` is within 64 bits, and re-encoding it reproduces the
/// very bytes it was read from.
pub proof fn lemma_le_val8_inverse(s: Seq<u8>, pos: int)
    requires
        0 <= pos,
        pos + 8 <= s.len(),
    ensures
        0 <= le_val8(s, pos) < 0x10000000000000000,
        u64_le_seq(le_val8(s, pos) as u64) =~= s.subrange(pos, pos + 8),
{
    let b0 = s[pos] as u64;
    let b1 = s[pos + 1] as u64;
    let b2 = s[pos + 2] as u64;
    let b3 = s[pos + 3] as u64;
    let b4 = s[pos + 4] as u64;
    let b5 = s[pos + 5] as u64;
    let b6 = s[pos + 6] as u64;
    let b7 = s[pos + 7] as u64;
    let v = le_val8(s, pos) as u64;
    assert((b0 < 0x100 && b1 < 0x100 && b2 < 0x100 && b3 < 0x100 && b4 < 0x100 && b5 < 0x100 && b6
        < 0x100 && b7 < 0x100 && v == b0 + 0x100 * (b1 + 0x100 * (b2 + 0x100 * (b3 + 0x100 * (b4
        + 0x100 * (b5 + 0x100 * (b6 + 0x100 * b7))))))) ==> (v % 0x100 == b0 && (v / 0x100) % 0x100
        == b1 && (v / 0x10000) % 0x100 == b2 && (v / 0x1000000) % 0x100 == b3 && (v / 0x100000000)
        % 0x100 == b4 && (v / 0x10000000000) % 0x100 == b5 && (v / 0x1000000000000) % 0x100 == b6
        && (v / 0x100000000000000) % 0x100 == b7)) by (bit_vector);
}

/// Reading 8 bytes at `pos` is reading the subrange they form.
proof fn lemma_le_val8_subrange(s: Seq<u8>, pos: int)
    requires
        0 <= pos,
        pos + 8 <= s.len(),
    ensures
        le_val8(s, pos) == le_val8(s.subrange(pos, pos + 8), 0),
{
    let sub = s.subrange(pos, pos + 8);
    assert(sub[0] == s[pos]);
    assert(sub[1] == s[pos + 1]);
    assert(sub[2] == s[pos + 2]);
    assert(sub[3] == s[pos + 3]);
    assert(sub[4] == s[pos + 4]);
    assert(sub[5] == s[pos + 5]);
    assert(sub[6] == s[pos + 6]);
    assert(sub[7] == s[pos + 7]);
}

/// Appends the 8 little-endian bytes of `x`.
fn write_u64(out: &mut Vec<u8>, x: u64)
    ensures
        final(out)@ == old(out)@ + u64_le_seq(x),
{
    out.push((x % 0x100) as u8);
    out.push(((x / 0x100) % 0x100) as u8);
    out.push(((x / 0x10000) % 0x100) as u8);
    out.push(((x / 0x1000000) % 0x100) as u8);
    out.push(((x / 0x100000000) % 0x100) as u8);
    out.push(((x / 0x10000000000) % 0x100) as u8);
    out.push(((x / 0x1000000000000) % 0x100) as u8);
    out.push(((x / 0x100000000000000) % 0x100) as u8);
    proof {
        assert(out@ =~= old(out)@ + u64_le_seq(x));
    }
}

/// Reads the 8 little-endian bytes at `pos`, if the buffer has them.
fn read_u64(bytes: &Vec<u8>, pos: usize) -> (r: Option<(u64, usize)>)
    ensures
        match r {
            Some(p) => {
                &&& pos + 8 <= bytes@.len()
                &&& p.0 == le_val8(bytes@, pos as int)
                &&& p.1 == pos + 8
            },
            None => pos + 8 > bytes@.len(),
        },
{
    if bytes.len() < 8 || pos > bytes.len() - 8 {
        return None;
    }
    let b0 = bytes[pos] as u64;
    let b1 = bytes[pos + 1] as u64;
    let b2 = bytes[pos + 2] as u64;
    let b3 = bytes[pos + 3] as u64;
    let b4 = bytes[pos + 4] as u64;
    let b5 = bytes[pos + 5] as u64;
    let b6 = bytes[pos + 6] as u64;
    let b7 = bytes[pos + 7] as u64;
    let v = b0 + 0x100 * (b1 + 0x100 * (b2 + 0x100 * (b3 + 0x100 * (b4 + 0x100 * (b5 + 0x100 * (b6
        + 0x100 * b7))))));
    Some((v, pos + 8))
}

/// A length-prefixed byte string.
pub open spec fn bytes_enc(v: Seq<u8>) -> Seq<u8> {
    u64_le_seq(v.len() as u64) + v
}

/// A ballot: round then node id, 8 bytes each.
pub open spec fn ballot_enc(b: Ballot) -> Seq<u8> {
    u64_le_seq(b.0 as u64) + u64_le_seq(b.1 as u64)
}

/// The slot indices of a hole list, in order.
pub open spec fn holes_items_enc(l: Seq<usize>) -> Seq<u8>
    decreases l.len(),
{
    if l.len() == 0 {
        Seq::empty()
    } else {
        u64_le_seq(l[0] as u64) + holes_items_enc(l.drop_first())
    }
}

/// A count-prefixed hole list.
pub open spec fn holes_enc(l: Seq<usize>) -> Seq<u8> {
    u64_le_seq(l.len() as u64) + holes_items_enc(l)
}

/// One accepted `(slot, ballot, value)` triple.
pub open spec fn triple_enc(t: (usize, Ballot, Vec<u8>)) -> Seq<u8> {
    u64_le_seq(t.0 as u64) + ballot_enc(t.1) + bytes_enc(t.2@)
}

/// The triples of a promise payload, in order.
pub open spec fn triples_items_enc(l: Seq<(usize, Ballot, Vec<u8>)>) -> Seq<u8>
    decreases l.len(),
{
    if l.len() == 0 {
        Seq::empty()
    } else {
        triple_enc(l[0]) + triples_items_enc(l.drop_first())
    }
}

/// A count-prefixed promise payload.
pub open spec fn triples_enc(l: Seq<(usize, Ballot, Vec<u8>)>) -> Seq<u8> {
    u64_le_seq(l.len() as u64) + triples_items_enc(l)
}

/// The encoding of a protocol message: one tag byte, then its fields.
pub open spec fn msg_bytes(m: PaxosMsg) -> Seq<u8> {
    match m {
        PaxosMsg::Prepare { ballot, holes } => seq![1u8] + ballot_enc(ballot) + holes_enc(holes@),
        PaxosMsg::Promise { ballot, accepted } => seq![2u8] + ballot_enc(ballot) + triples_enc(
            accepted@,
        ),
        PaxosMsg::Propose { index, ballot, value } => seq![3u8] + u64_le_seq(index as u64)
            + ballot_enc(ballot) + bytes_enc(value@),
        PaxosMsg::Accept { index, ballot } => seq![4u8] + u64_le_seq(index as u64) + ballot_enc(
            ballot,
        ),
        PaxosMsg::Learn { index, ballot, value } => seq![5u8] + u64_le_seq(index as u64)
            + ballot_enc(ballot) + bytes_enc(value@),
        PaxosMsg::Nack { ballot } => seq![6u8] + ballot_enc(ballot),
        PaxosMsg::ClientRequest(value) => seq![7u8] + bytes_enc(value@),
    }
}

/// Appending an element to a hole list appends its bytes.
proof fn lemma_holes_items_push(l: Seq<usize>, x: usize)
    ensures
        holes_items_enc(l.push(x)) == holes_items_enc(l) + u64_le_seq(x as u64),
    decreases l.len(),
{
    if l.len() == 0 {
        assert(l.push(x).drop_first() =~= Seq::<usize>::empty());
        assert(holes_items_enc(l.push(x)) == u64_le_seq(x as u64) + holes_items_enc(
            Seq::<usize>::empty(),
        ));
        assert(holes_items_enc(l.push(x)) =~= holes_items_enc(l) + u64_le_seq(x as u64));
    } else {
        lemma_holes_items_push(l.drop_first(), x);
        assert(l.push(x).drop_first() =~= l.drop_first().push(x));
        assert(l.push(x)[0] == l[0]);
        assert(holes_items_enc(l.push(x)) == u64_le_seq(l[0] as u64) + holes_items_enc(
            l.drop_first().push(x),
        ));
        assert(holes_items_enc(l) == u64_le_seq(l[0] as u64) + holes_items_enc(l.drop_first()));
        assert(holes_items_enc(l.push(x)) =~= holes_items_enc(l) + u64_le_seq(x as u64));
    }
}

/// Appending a triple to a payload appends its bytes.
proof fn lemma_triples_items_push(l: Seq<(usize, Ballot, Vec<u8>)>, t: (usize, Ballot, Vec<u8>))
    ensures
        triples_items_enc(l.push(t)) == triples_items_enc(l) + triple_enc(t),
    decreases l.len(),
{
    if l.len() == 0 {
        assert(l.push(t).drop_first() =~= Seq::<(usize, Ballot, Vec<u8>)>::empty());
        assert(triples_items_enc(l.push(t)) == triple_enc(t) + triples_items_enc(
            Seq::<(usize, Ballot, Vec<u8>)>::empty(),
        ));
        assert(triples_items_enc(l.push(t)) =~= triples_items_enc(l) + triple_enc(t));
    } else {
        lemma_triples_items_push(l.drop_first(), t);
        assert(l.push(t).drop_first() =~= l.drop_first().push(t));
        assert(l.push(t)[0] == l[0]);
        assert(triples_items_enc(l.push(t)) == triple_enc(l[0]) + triples_items_enc(
            l.drop_first().push(t),
        ));
        assert(triples_items_enc(l) == triple_enc(l[0]) + triples_items_enc(l.drop_first()));
        assert(triples_items_enc(l.push(t)) =~= triples_items_enc(l) + triple_enc(t));
    }
}

/// The items of a hole list occupy 8 bytes each, the k-th at offset `8k`.
proof fn lemma_holes_items_props(l: Seq<usize>)
    ensures
        holes_items_enc(l).len() == 8 * l.len(),
        forall|k: int|
            0 <= k < l.len() ==> holes_items_enc(l).subrange(8 * k, 8 * k + 8) == u64_le_seq(
                (#[trigger] l[k]) as u64,
            ),
    decreases l.len(),
{
    if l.len() > 0 {
        let rest = l.drop_first();
        lemma_holes_items_props(rest);
        assert forall|k: int|
            0 <= k < l.len() implies holes_items_enc(l).subrange(8 * k, 8 * k + 8) == u64_le_seq(
            (#[trigger] l[k]) as u64,
        ) by {
            if k == 0 {
                assert(holes_items_enc(l).subrange(0, 8) =~= u64_le_seq(l[0] as u64));
            } else {
                assert(rest[k - 1] == l[k]);
                assert(holes_items_enc(l).subrange(8 * k, 8 * k + 8) =~= holes_items_enc(
                    rest,
                ).subrange(8 * (k - 1), 8 * (k - 1) + 8));
            }
        }
    }
}

/// Each triple of a payload sits at the offset given by the lengths of the
/// triples before it.
proof fn lemma_triples_items_props(l: Seq<(usize, Ballot, Vec<u8>)>)
    ensures
        forall|k: int|
            0 <= k < l.len() ==> {
                let off = triples_items_enc(l.take(k)).len() as int;
                let tlen = triple_enc(#[trigger] l[k]).len() as int;
                &&& triples_items_enc(l.take(k + 1)).len() == off + tlen
                &&& off + tlen <= triples_items_enc(l).len()
                &&& triples_items_enc(l).subrange(off, off + tlen) == triple_enc(l[k])
            },
    decreases l.len(),
{
    if l.len() > 0 {
        let rest = l.drop_first();
        lemma_triples_items_props(rest);
        assert forall|k: int|
            0 <= k < l.len() implies {
            let off = triples_items_enc(l.take(k)).len() as int;
            let tlen = triple_enc(#[trigger] l[k]).len() as int;
            &&& triples_items_enc(l.take(k + 1)).len() == off + tlen
            &&& off + tlen <= triples_items_enc(l).len()
            &&& triples_items_enc(l).subrange(off, off + tlen) == triple_enc(l[k])
        } by {
            if k == 0 {
                assert(l.take(0) =~= Seq::<(usize, Ballot, Vec<u8>)>::empty());
                assert(l.take(1).drop_first() =~= Seq::<(usize, Ballot, Vec<u8>)>::empty());
                assert(l.take(1)[0] == l[0]);
                assert(triples_items_enc(l.take(1)) == triple_enc(l[0]) + triples_items_enc(
                    Seq::<(usize, Ballot, Vec<u8>)>::empty(),
                ));
                assert(triples_items_enc(l.take(1)).len() == triple_enc(l[0]).len());
                assert(triples_items_enc(l).subrange(0, triple_enc(l[0]).len() as int)
                    =~= triple_enc(l[0]));
            } else {
                assert(l.take(k)[0] == l[0]);
                assert(l.take(k).drop_first() =~= rest.take(k - 1));
                assert(l.take(k + 1)[0] == l[0]);
                assert(l.take(k + 1).drop_first() =~= rest.take(k));
                assert(rest[k - 1] == l[k]);
                let off_rest = triples_items_enc(rest.take(k - 1)).len() as int;
                let tlen = triple_enc(l[k]).len() as int;
                let head = triple_enc(l[0]).len() as int;
                assert(triples_items_enc(l.take(k)).len() == head + off_rest);
                assert(triples_items_enc(l.take(k + 1)).len() == head + triples_items_enc(
                    rest.take(k),
                ).len());
                assert(triples_items_enc(l).subrange(head + off_rest, head + off_rest + tlen)
                    =~= triples_items_enc(rest).subrange(off_rest, off_rest + tlen));
            }
        }
    }
}

/// Appends a length-prefixed byte string.
fn write_bytes(out: &mut Vec<u8>, v: &Vec<u8>)
    ensures
        final(out)@ == old(out)@ + bytes_enc(v@),
{
    write_u64(out, v.len() as u64);
    let ghost mid = out@;
    let mut i: usize = 0;
    while i < v.len()
        invariant
            i <= v@.len(),
            out@ == mid + v@.take(i as int),
        decreases v@.len() - i,
    {
        out.push(v[i]);
        proof {
            assert(mid + v@.take(i as int).push(v@[i as int]) =~= mid + v@.take(i as int + 1));
        }
        i += 1;
    }
    proof {
        assert(v@.take(v@.len() as int) =~= v@);
        assert(out@ =~= old(out)@ + bytes_enc(v@));
    }
}

/// Appends a ballot.
fn write_ballot(out: &mut Vec<u8>, b: &Ballot)
    ensures
        final(out)@ == old(out)@ + ballot_enc(*b),
{
    write_u64(out, b.0 as u64);
    write_u64(out, b.1 as u64);
    proof {
        assert(out@ =~= old(out)@ + ballot_enc(*b));
    }
}

/// Appends a count-prefixed hole list.
fn write_holes(out: &mut Vec<u8>, l: &Vec<usize>)
    ensures
        final(out)@ == old(out)@ + holes_enc(l@),
{
    write_u64(out, l.len() as u64);
    let ghost mid = out@;
    let mut i: usize = 0;
    while i < l.len()
        invariant
            i <= l@.len(),
            out@ == mid + holes_items_enc(l@.take(i as int)),
        decreases l@.len() - i,
    {
        write_u64(out, l[i] as u64);
        proof {
            lemma_holes_items_push(l@.take(i as int), l@[i as int]);
            assert(l@.take(i as int).push(l@[i as int]) =~= l@.take(i as int + 1));
            assert(out@ =~= mid + holes_items_enc(l@.take(i as int + 1)));
        }
        i += 1;
    }
    proof {
        assert(l@.take(l@.len() as int) =~= l@);
        assert(out@ =~= old(out)@ + holes_enc(l@));
    }
}

/// Appends a count-prefixed promise payload.
fn write_triples(out: &mut Vec<u8>, l: &Promise)
    ensures
        final(out)@ == old(out)@ + triples_enc(l@),
{
    write_u64(out, l.len() as u64);
    let ghost mid = out@;
    let mut i: usize = 0;
    while i < l.len()
        invariant
            i <= l@.len(),
            out@ == mid + triples_items_enc(l@.take(i as int)),
        decreases l@.len() - i,
    {
        write_u64(out, l[i].0 as u64);
        write_ballot(out, &l[i].1);
        write_bytes(out, &l[i].2);
        proof {
            lemma_triples_items_push(l@.take(i as int), l@[i as int]);
            assert(l@.take(i as int).push(l@[i as int]) =~= l@.take(i as int + 1));
            assert(out@ =~= mid + triples_items_enc(l@.take(i as int + 1)));
        }
        i += 1;
    }
    proof {
        assert(l@.take(l@.len() as int) =~= l@);
        assert(out@ =~= old(out)@ + triples_enc(l@));
    }
}

/// Encodes a message: exactly `msg_bytes` of it.
pub fn encode_msg(m: &PaxosMsg) -> (out: Vec<u8>)
    ensures
        out@ == msg_bytes(*m),
{
    let mut out: Vec<u8> = Vec::new();
    match m {
        PaxosMsg::Prepare { ballot, holes } => {
            out.push(1);
            write_ballot(&mut out, ballot);
            write_holes(&mut out, holes);
            proof {
                assert(out@ =~= msg_bytes(*m));
            }
        },
        PaxosMsg::Promise { ballot, accepted } => {
            out.push(2);
            write_ballot(&mut out, ballot);
            write_triples(&mut out, accepted);
            proof {
                assert(out@ =~= msg_bytes(*m));
            }
        },
        PaxosMsg::Propose { index, ballot, value } => {
            out.push(3);
            write_u64(&mut out, *index as u64);
            write_ballot(&mut out, ballot);
            write_bytes(&mut out, value);
            proof {
                assert(out@ =~= msg_bytes(*m));
            }
        },
        PaxosMsg::Accept { index, ballot } => {
            out.push(4);
            write_u64(&mut out, *index as u64);
            write_ballot(&mut out, ballot);
            proof {
                assert(out@ =~= msg_bytes(*m));
            }
        },
        PaxosMsg::Learn { index, ballot, value } => {
            out.push(5);
            write_u64(&mut out, *index as u64);
            write_ballot(&mut out, ballot);
            write_bytes(&mut out, value);
            proof {
                assert(out@ =~= msg_bytes(*m));
            }
        },
        PaxosMsg::Nack { ballot } => {
            out.push(6);
            write_ballot(&mut out, ballot);
            proof {
                assert(out@ =~= msg_bytes(*m));
            }
        },
        PaxosMsg::ClientRequest(value) => {
            out.push(7);
            write_bytes(&mut out, value);
            proof {
                assert(out@ =~= msg_bytes(*m));
            }
        },
    }
    out
}

/// Reads a ballot at `pos`.  On success the 16 bytes read are exactly the
/// encoding of the returned ballot.
#[verifier::rlimit(100)]
fn read_ballot(bytes: &Vec<u8>, pos: usize) -> (r: Option<(Ballot, usize)>)
    ensures
        r matches Some(p) ==> {
            &&& pos + 16 <= bytes@.len()
            &&& p.1 == pos + 16
            &&& ballot_enc(p.0) == bytes@.subrange(pos as int, pos + 16)
        },
        forall|b: Ballot|
            (pos + 16 <= bytes@.len() && bytes@.subrange(pos as int, pos + 16) == ballot_enc(b))
                ==> (r matches Some(p) && p.0 == b && p.1 == pos + 16),
{
    proof {
        assert forall|b: Ballot|
            pos + 16 <= bytes@.len() && bytes@.subrange(pos as int, pos + 16) == ballot_enc(
                b,
            ) implies (le_val8(bytes@, pos as int) == b.0 && le_val8(bytes@, pos + 8) == b.1) by {
            lemma_le_val8_subrange(bytes@, pos as int);
            lemma_le_val8_subrange(bytes@, pos + 8);
            assert(bytes@.subrange(pos as int, pos + 8) =~= bytes@.subrange(
                pos as int,
                pos + 16,
            ).subrange(0, 8));
            assert(bytes@.subrange(pos + 8, pos + 16) =~= bytes@.subrange(
                pos as int,
                pos + 16,
            ).subrange(8, 16));
            assert(ballot_enc(b).subrange(0, 8) =~= u64_le_seq(b.0 as u64));
            assert(ballot_enc(b).subrange(8, 16) =~= u64_le_seq(b.1 as u64));
            lemma_u64_le_round_trip(b.0 as u64);
            lemma_u64_le_round_trip(b.1 as u64);
        }
    }
    let (v0, p1) = match read_u64(bytes, pos) {
        Some(x) => x,
        None => {
            return None;
        },
    };
    let (v1, p2) = match read_u64(bytes, p1) {
        Some(x) => x,
        None => {
            return None;
        },
    };
    if v0 > usize::MAX as u64 || v1 > usize::MAX as u64 {
        return None;
    }
    let b = Ballot(v0 as usize, v1 as usize);
    proof {
        lemma_le_val8_inverse(bytes@, pos as int);
        lemma_le_val8_inverse(bytes@, pos + 8);
        assert(ballot_enc(b) =~= bytes@.subrange(pos as int, pos + 16));
    }
    Some((b, p2))
}

/// Reads a length-prefixed byte string at `pos`.  On success the bytes
/// read are exactly the encoding of the returned string.
fn read_bytes_field(bytes: &Vec<u8>, pos: usize) -> (r: Option<(Vec<u8>, usize)>)
    ensures
        r matches Some(p) ==> {
            &&& pos < p.1 <= bytes@.len()
            &&& bytes_enc(p.0@) == bytes@.subrange(pos as int, p.1 as int)
            &&& p.1 == pos + 8 + p.0@.len()
        },
        forall|v: Seq<u8>|
            (pos + 8 + v.len() <= bytes@.len() && bytes@.subrange(pos as int, pos + 8 + v.len())
                == bytes_enc(v)) ==> (r matches Some(p) && p.1 == pos + 8 + v.len() && p.0@ == v),
{
    proof {
        assert forall|v: Seq<u8>|
            pos + 8 + v.len() <= bytes@.len() && bytes@.subrange(pos as int, pos + 8 + v.len())
                == bytes_enc(v) implies le_val8(bytes@, pos as int) == v.len() by {
            lemma_le_val8_subrange(bytes@, pos as int);
            assert(bytes@.subrange(pos as int, pos + 8) =~= bytes@.subrange(
                pos as int,
                pos + 8 + v.len(),
            ).subrange(0, 8));
            assert(bytes_enc(v).subrange(0, 8) =~= u64_le_seq(v.len() as u64));
            assert(le_val8(bytes@.subrange(pos as int, pos + 8), 0) == le_val8(
                u64_le_seq(v.len() as u64),
                0,
            ));
            vstd::std_specs::vec::axiom_spec_len(bytes);
            assert(v.len() <= usize::MAX);
            lemma_u64_le_round_trip(v.len() as u64);
        }
    }
    let (n, p1) = match read_u64(bytes, pos) {
        Some(x) => x,
        None => {
            return None;
        },
    };
    if n > (bytes.len() - p1) as u64 {
        return None;
    }
    let nn = n as usize;
    let end = p1 + nn;
    let mut v: Vec<u8> = Vec::new();
    let mut i: usize = 0;
    while i < nn
        invariant
            i <= nn,
            p1 + nn == end <= bytes@.len(),
            v@ == bytes@.subrange(p1 as int, p1 + i),
        decreases nn - i,
    {
        v.push(bytes[p1 + i]);
        proof {
            assert(bytes@.subrange(p1 as int, p1 + i).push(bytes@[p1 + i]) =~= bytes@.subrange(
                p1 as int,
                p1 + i + 1,
            ));
        }
        i += 1;
    }
    proof {
        lemma_le_val8_inverse(bytes@, pos as int);
        assert(v@.len() as u64 == n);
        assert(bytes_enc(v@) =~= bytes@.subrange(pos as int, end as int));
        assert forall|w: Seq<u8>|
            pos + 8 + w.len() <= bytes@.len() && bytes@.subrange(pos as int, pos + 8 + w.len())
                == bytes_enc(w) implies v@ == w by {
            lemma_le_val8_subrange(bytes@, pos as int);
            assert(bytes@.subrange(pos as int, pos + 8) =~= bytes@.subrange(
                pos as int,
                pos + 8 + w.len(),
            ).subrange(0, 8));
            assert(bytes_enc(w).subrange(0, 8) =~= u64_le_seq(w.len() as u64));
            assert(le_val8(bytes@.subrange(pos as int, pos + 8), 0) == le_val8(
                u64_le_seq(w.len() as u64),
                0,
            ));
            lemma_u64_le_round_trip(w.len() as u64);
            assert(w.len() == n);
            assert(w =~= bytes_enc(w).subrange(8, 8 + w.len() as int));
            assert(bytes@.subrange(pos as int, pos + 8 + w.len()).subrange(
                8,
                8 + w.len() as int,
            ) =~= bytes@.subrange(pos + 8, pos + 8 + w.len()));
            assert(v@ =~= w);
        }
    }
    Some((v, end))
}

/// Reads a count-prefixed hole list at `pos`.  On success the bytes read
/// are exactly the encoding of the returned list.
/// A buffer that carries an encoded hole list at `pos` starts with its
/// count and continues with its items.
proof fn lemma_holes_header(s: Seq<u8>, pos: int, hl: Seq<usize>)
    requires
        0 <= pos,
        hl.len() < 0x10000000000000000,
        pos + 8 + 8 * hl.len() <= s.len(),
        s.subrange(pos, pos + 8 + 8 * hl.len()) == holes_enc(hl),
    ensures
        le_val8(s, pos) == hl.len(),
        s.subrange(pos + 8, pos + 8 + 8 * hl.len()) == holes_items_enc(hl),
{
    lemma_holes_items_props(hl);
    lemma_le_val8_subrange(s, pos);
    assert(s.subrange(pos, pos + 8) =~= s.subrange(pos, pos + 8 + 8 * hl.len()).subrange(0, 8));
    assert(holes_enc(hl).subrange(0, 8) =~= u64_le_seq(hl.len() as u64));
    assert(le_val8(s.subrange(pos, pos + 8), 0) == le_val8(u64_le_seq(hl.len() as u64), 0));
    lemma_u64_le_round_trip(hl.len() as u64);
    assert(s.subrange(pos + 8, pos + 8 + 8 * hl.len()) =~= s.subrange(
        pos,
        pos + 8 + 8 * hl.len(),
    ).subrange(8, 8 + 8 * hl.len() as int));
    assert(holes_enc(hl).subrange(8, 8 + 8 * hl.len() as int) =~= holes_items_enc(hl));
}

/// The `i`-th slot of an encoded hole list is readable at its offset.
proof fn lemma_holes_item_at(s: Seq<u8>, pos: int, hl: Seq<usize>, i: int)
    requires
        0 <= pos,
        hl.len() < 0x10000000000000000,
        pos + 8 + 8 * hl.len() <= s.len(),
        s.subrange(pos, pos + 8 + 8 * hl.len()) == holes_enc(hl),
        0 <= i < hl.len(),
    ensures
        le_val8(s, pos + 8 + 8 * i) == hl[i],
{
    lemma_holes_header(s, pos, hl);
    lemma_holes_items_props(hl);
    lemma_le_val8_subrange(s, pos + 8 + 8 * i);
    assert(s.subrange(pos + 8 + 8 * i, pos + 8 + 8 * i + 8) =~= s.subrange(
        pos + 8,
        pos + 8 + 8 * hl.len(),
    ).subrange(8 * i, 8 * i + 8));
    assert(le_val8(s.subrange(pos + 8 + 8 * i, pos + 8 + 8 * i + 8), 0) == le_val8(
        u64_le_seq(hl[i] as u64),
        0,
    ));
    lemma_u64_le_round_trip(hl[i] as u64);
}

#[verifier::rlimit(100)]
fn read_holes_field(bytes: &Vec<u8>, pos: usize) -> (r: Option<(Vec<usize>, usize)>)
    ensures
        r matches Some(p) ==> {
            &&& pos < p.1 <= bytes@.len()
            &&& holes_enc(p.0@) == bytes@.subrange(pos as int, p.1 as int)
        },
        forall|hl: Seq<usize>|
            #![trigger holes_enc(hl)]
            (pos + 8 + 8 * hl.len() <= bytes@.len() && bytes@.subrange(
                pos as int,
                pos + 8 + 8 * hl.len(),
            ) == holes_enc(hl)) ==> (r matches Some(p) && p.1 == pos + 8 + 8 * hl.len() && p.0@
                == hl),
{
    proof {
        vstd::std_specs::vec::axiom_spec_len(bytes);
        assert forall|hl: Seq<usize>|
            #![trigger holes_enc(hl)]
            pos + 8 + 8 * hl.len() <= bytes@.len() && bytes@.subrange(
                pos as int,
                pos + 8 + 8 * hl.len(),
            ) == holes_enc(hl) implies le_val8(bytes@, pos as int) == hl.len() by {
            lemma_holes_header(bytes@, pos as int, hl);
        }
    }
    let (n, p1) = match read_u64(bytes, pos) {
        Some(x) => x,
        None => {
            return None;
        },
    };
    if n > usize::MAX as u64 {
        return None;
    }
    let nn = n as usize;
    let mut l: Vec<usize> = Vec::new();
    let mut cur = p1;
    let mut i: usize = 0;
    while i < nn
        invariant
            i <= nn,
            pos + 8 == p1 <= cur <= bytes@.len(),
            cur == p1 + 8 * i,
            l@.len() == i,
            holes_items_enc(l@) == bytes@.subrange(p1 as int, cur as int),
            nn == le_val8(bytes@, pos as int),
            bytes@.len() <= usize::MAX,
            forall|hl: Seq<usize>|
                #![trigger holes_enc(hl)]
                (pos + 8 + 8 * hl.len() <= bytes@.len() && bytes@.subrange(
                    pos as int,
                    pos + 8 + 8 * hl.len(),
                ) == holes_enc(hl)) ==> (hl.len() == nn && l@ == hl.take(i as int)),
        decreases nn - i,
    {
        proof {
            assert forall|hl: Seq<usize>|
                #![trigger holes_enc(hl)]
                pos + 8 + 8 * hl.len() <= bytes@.len() && bytes@.subrange(
                    pos as int,
                    pos + 8 + 8 * hl.len(),
                ) == holes_enc(hl) implies {
                &&& cur + 8 <= bytes@.len()
                &&& le_val8(bytes@, cur as int) == hl[i as int]
            } by {
                vstd::std_specs::vec::axiom_spec_len(bytes);
                lemma_holes_item_at(bytes@, pos as int, hl, i as int);
            }
        }
        let (v, next) = match read_u64(bytes, cur) {
            Some(x) => x,
            None => {
                return None;
            },
        };
        if v > usize::MAX as u64 {
            return None;
        }
        proof {
            lemma_le_val8_inverse(bytes@, cur as int);
            lemma_holes_items_push(l@, (v as usize));
            assert(holes_items_enc(l@.push(v as usize)) =~= bytes@.subrange(
                p1 as int,
                next as int,
            ));
            assert forall|hl: Seq<usize>|
                #![trigger holes_enc(hl)]
                pos + 8 + 8 * hl.len() <= bytes@.len() && bytes@.subrange(
                    pos as int,
                    pos + 8 + 8 * hl.len(),
                ) == holes_enc(hl) implies l@.push(v as usize) == hl.take(i as int + 1) by {
                assert(hl.take(i as int).push(hl[i as int]) =~= hl.take(i as int + 1));
            }
        }
        l.push(v as usize);
        cur = next;
        i += 1;
    }
    proof {
        lemma_le_val8_inverse(bytes@, pos as int);
        assert(l@.len() as u64 == n);
        assert(holes_enc(l@) =~= bytes@.subrange(pos as int, cur as int));
        assert forall|hl: Seq<usize>|
            #![trigger holes_enc(hl)]
            pos + 8 + 8 * hl.len() <= bytes@.len() && bytes@.subrange(
                pos as int,
                pos + 8 + 8 * hl.len(),
            ) == holes_enc(hl) implies l@ == hl by {
            assert(hl.take(hl.len() as int) =~= hl);
        }
    }
    Some((l, cur))
}

/// Reads one `(slot, ballot, value)` triple at `pos`.  On success the
/// bytes read are exactly the encoding of the returned triple.
#[verifier::rlimit(100)]
fn read_triple(bytes: &Vec<u8>, pos: usize) -> (r: Option<((usize, Ballot, Vec<u8>), usize)>)
    ensures
        r matches Some(p) ==> {
            &&& pos < p.1 <= bytes@.len()
            &&& triple_enc(p.0) == bytes@.subrange(pos as int, p.1 as int)
            &&& p.1 == pos + triple_enc(p.0).len()
        },
        forall|t_slot: usize, t_bal: Ballot, t_val: Seq<u8>|
            #![trigger u64_le_seq(t_slot as u64), ballot_enc(t_bal), bytes_enc(t_val)]
            (pos + 32 + t_val.len() <= bytes@.len() && bytes@.subrange(
                pos as int,
                pos + 32 + t_val.len(),
            ) == u64_le_seq(t_slot as u64) + ballot_enc(t_bal) + bytes_enc(t_val)) ==> (r matches
            Some(p) && p.1 == pos + 32 + t_val.len()),
{
    proof {
        assert forall|t_slot: usize, t_bal: Ballot, t_val: Seq<u8>|
            #![trigger u64_le_seq(t_slot as u64), ballot_enc(t_bal), bytes_enc(t_val)]
            pos + 32 + t_val.len() <= bytes@.len() && bytes@.subrange(
                pos as int,
                pos + 32 + t_val.len(),
            ) == u64_le_seq(t_slot as u64) + ballot_enc(t_bal) + bytes_enc(t_val) implies {
            &&& le_val8(bytes@, pos as int) == t_slot as u64
            &&& bytes@.subrange(pos + 8, pos + 24) == ballot_enc(t_bal)
            &&& bytes@.subrange(pos + 24, pos + 32 + t_val.len()) == bytes_enc(t_val)
        } by {
            let whole = bytes@.subrange(pos as int, pos + 32 + t_val.len());
            let enc = u64_le_seq(t_slot as u64) + ballot_enc(t_bal) + bytes_enc(t_val);
            lemma_le_val8_subrange(bytes@, pos as int);
            assert(bytes@.subrange(pos as int, pos + 8) =~= whole.subrange(0, 8));
            assert(enc.subrange(0, 8) =~= u64_le_seq(t_slot as u64));
            lemma_u64_le_round_trip(t_slot as u64);
            assert(bytes@.subrange(pos + 8, pos + 24) =~= whole.subrange(8, 24));
            assert(enc.subrange(8, 24) =~= ballot_enc(t_bal));
            assert(bytes@.subrange(pos + 24, pos + 32 + t_val.len()) =~= whole.subrange(
                24,
                32 + t_val.len() as int,
            ));
            assert(enc.subrange(24, 32 + t_val.len() as int) =~= bytes_enc(t_val));
        }
    }
    let (slot64, q1) = match read_u64(bytes, pos) {
        Some(x) => x,
        None => {
            return None;
        },
    };
    if slot64 > usize::MAX as u64 {
        return None;
    }
    let (bal, q2) = match read_ballot(bytes, q1) {
        Some(x) => x,
        None => {
            return None;
        },
    };
    let (val, q3) = match read_bytes_field(bytes, q2) {
        Some(x) => x,
        None => {
            return None;
        },
    };
    let t = (slot64 as usize, bal, val);
    proof {
        lemma_le_val8_inverse(bytes@, pos as int);
        assert(u64_le_seq(t.0 as u64) == bytes@.subrange(pos as int, pos + 8));
        assert(triple_enc(t) =~= bytes@.subrange(pos as int, q3 as int));
    }
    Some((t, q3))
}

/// Every encoded triple takes at least 32 bytes.
proof fn lemma_triples_items_len_lb(l: Seq<(usize, Ballot, Vec<u8>)>)
    ensures
        triples_items_enc(l).len() >= 32 * l.len(),
    decreases l.len(),
{
    if l.len() > 0 {
        lemma_triples_items_len_lb(l.drop_first());
    }
}

/// A buffer that carries an encoded payload at `pos` starts with its count
/// and continues with its triples.
proof fn lemma_triples_header(s: Seq<u8>, pos: int, l: Seq<(usize, Ballot, Vec<u8>)>)
    requires
        0 <= pos,
        s.len() < 0x10000000000000000,
        pos + triples_enc(l).len() <= s.len(),
        s.subrange(pos, pos + triples_enc(l).len()) == triples_enc(l),
    ensures
        l.len() < 0x10000000000000000,
        le_val8(s, pos) == l.len(),
        s.subrange(pos + 8, pos + triples_enc(l).len()) == triples_items_enc(l),
{
    lemma_triples_items_len_lb(l);
    lemma_le_val8_subrange(s, pos);
    assert(s.subrange(pos, pos + 8) =~= s.subrange(pos, pos + triples_enc(l).len()).subrange(0, 8));
    assert(triples_enc(l).subrange(0, 8) =~= u64_le_seq(l.len() as u64));
    assert(le_val8(s.subrange(pos, pos + 8), 0) == le_val8(u64_le_seq(l.len() as u64), 0));
    lemma_u64_le_round_trip(l.len() as u64);
    assert(s.subrange(pos + 8, pos + triples_enc(l).len()) =~= s.subrange(
        pos,
        pos + triples_enc(l).len(),
    ).subrange(8, triples_enc(l).len() as int));
    assert(triples_enc(l).subrange(8, triples_enc(l).len() as int) =~= triples_items_enc(l));
}

/// The `i`-th triple of an encoded payload is readable at its offset.
#[verifier::rlimit(100)]
proof fn lemma_triples_item_at(s: Seq<u8>, pos: int, l: Seq<(usize, Ballot, Vec<u8>)>, i: int)
    requires
        0 <= pos,
        s.len() < 0x10000000000000000,
        pos + triples_enc(l).len() <= s.len(),
        s.subrange(pos, pos + triples_enc(l).len()) == triples_enc(l),
        0 <= i < l.len(),
    ensures
        ({
            let off = pos + 8 + triples_items_enc(l.take(i)).len();
            &&& triple_enc(l[i]).len() == 32 + l[i].2@.len()
            &&& off + 32 + l[i].2@.len() <= s.len()
            &&& s.subrange(off, off + 32 + l[i].2@.len() as int) == u64_le_seq(l[i].0 as u64)
                + ballot_enc(l[i].1) + bytes_enc(l[i].2@)
        }),
{
    lemma_triples_header(s, pos, l);
    lemma_triples_items_props(l);
    let off0 = triples_items_enc(l.take(i)).len() as int;
    let tlen = triple_enc(l[i]).len() as int;
    assert(s.subrange(pos + 8 + off0, pos + 8 + off0 + tlen) =~= s.subrange(
        pos + 8,
        pos + triples_enc(l).len(),
    ).subrange(off0, off0 + tlen));
}

/// Closing step of payload parsing: count and items together are the whole
/// encoding.
proof fn lemma_triples_close(s: Seq<u8>, pos: int, cur: int, l: Seq<(usize, Ballot, Vec<u8>)>)
    requires
        0 <= pos,
        pos + 8 <= cur <= s.len(),
        triples_items_enc(l) == s.subrange(pos + 8, cur),
        le_val8(s, pos) == l.len(),
    ensures
        triples_enc(l) == s.subrange(pos, cur),
{
    lemma_le_val8_inverse(s, pos);
    assert(u64_le_seq(l.len() as u64) =~= s.subrange(pos, pos + 8));
    assert(triples_enc(l) =~= s.subrange(pos, cur));
}

/// Reads a count-prefixed promise payload at `pos`.  On success the bytes
/// read are exactly the encoding of the returned payload.
#[verifier::rlimit(100)]
fn read_triples_field(bytes: &Vec<u8>, pos: usize) -> (r: Option<(Promise, usize)>)
    ensures
        r matches Some(p) ==> {
            &&& pos < p.1 <= bytes@.len()
            &&& triples_enc(p.0@) == bytes@.subrange(pos as int, p.1 as int)
        },
        forall|tl: Seq<(usize, Ballot, Vec<u8>)>|
            #![trigger triples_enc(tl)]
            (pos + triples_enc(tl).len() <= bytes@.len() && bytes@.subrange(
                pos as int,
                pos + triples_enc(tl).len(),
            ) == triples_enc(tl)) ==> (r matches Some(p) && p.1 == pos + triples_enc(tl).len()),
{
    proof {
        vstd::std_specs::vec::axiom_spec_len(bytes);
        assert forall|tl: Seq<(usize, Ballot, Vec<u8>)>|
            #![trigger triples_enc(tl)]
            pos + triples_enc(tl).len() <= bytes@.len() && bytes@.subrange(
                pos as int,
                pos + triples_enc(tl).len(),
            ) == triples_enc(tl) implies (le_val8(bytes@, pos as int) == tl.len() && 8 + 32
            * tl.len() <= bytes@.len()) by {
            lemma_triples_header(bytes@, pos as int, tl);
            lemma_triples_items_len_lb(tl);
        }
    }
    let (n, p1) = match read_u64(bytes, pos) {
        Some(x) => x,
        None => {
            return None;
        },
    };
    if n > usize::MAX as u64 {
        return None;
    }
    let nn = n as usize;
    let mut l: Promise = Vec::new();
    let mut cur = p1;
    let mut i: usize = 0;
    while i < nn
        invariant
            i <= nn,
            pos + 8 == p1 <= cur <= bytes@.len(),
            l@.len() == i,
            triples_items_enc(l@) == bytes@.subrange(p1 as int, cur as int),
            nn == le_val8(bytes@, pos as int),
            bytes@.len() <= usize::MAX,
            forall|tl: Seq<(usize, Ballot, Vec<u8>)>|
                #![trigger triples_enc(tl)]
                (pos + triples_enc(tl).len() <= bytes@.len() && bytes@.subrange(
                    pos as int,
                    pos + triples_enc(tl).len(),
                ) == triples_enc(tl)) ==> (tl.len() == nn && cur == pos + 8 + triples_items_enc(
                    tl.take(i as int),
                ).len()),
        decreases nn - i,
    {
        proof {
            assert forall|tl: Seq<(usize, Ballot, Vec<u8>)>|
                #![trigger triples_enc(tl)]
                pos + triples_enc(tl).len() <= bytes@.len() && bytes@.subrange(
                    pos as int,
                    pos + triples_enc(tl).len(),
                ) == triples_enc(tl) implies {
                &&& cur + 32 + tl[i as int].2@.len() <= bytes@.len()
                &&& bytes@.subrange(cur as int, cur + 32 + tl[i as int].2@.len() as int)
                    == u64_le_seq(tl[i as int].0 as u64) + ballot_enc(tl[i as int].1) + bytes_enc(
                    tl[i as int].2@,
                )
            } by {
                lemma_triples_header(bytes@, pos as int, tl);
                lemma_triples_item_at(bytes@, pos as int, tl, i as int);
            }
        }
        let (t, q) = match read_triple(bytes, cur) {
            Some(x) => x,
            None => {
                return None;
            },
        };
        proof {
            lemma_triples_items_push(l@, t);
            assert(triples_items_enc(l@.push(t)) =~= bytes@.subrange(p1 as int, q as int));
            assert forall|tl: Seq<(usize, Ballot, Vec<u8>)>|
                #![trigger triples_enc(tl)]
                pos + triples_enc(tl).len() <= bytes@.len() && bytes@.subrange(
                    pos as int,
                    pos + triples_enc(tl).len(),
                ) == triples_enc(tl) implies q == pos + 8 + triples_items_enc(
                tl.take(i as int + 1),
            ).len() by {
                lemma_triples_header(bytes@, pos as int, tl);
                lemma_triples_item_at(bytes@, pos as int, tl, i as int);
                lemma_triples_items_props(tl);
            }
        }
        l.push(t);
        cur = q;
        i += 1;
    }
    proof {
        lemma_triples_close(bytes@, pos as int, cur as int, l@);
        assert forall|tl: Seq<(usize, Ballot, Vec<u8>)>|
            #![trigger triples_enc(tl)]
            pos + triples_enc(tl).len() <= bytes@.len() && bytes@.subrange(
                pos as int,
                pos + triples_enc(tl).len(),
            ) == triples_enc(tl) implies cur == pos + triples_enc(tl).len() by {
            assert(tl.take(tl.len() as int) =~= tl);
        }
    }
    Some((l, cur))
}

/// Splitting a buffer region known to hold two concatenated pieces.
proof fn lemma_split2(s: Seq<u8>, pos: int, a: Seq<u8>, b: Seq<u8>)
    requires
        0 <= pos,
        pos + a.len() + b.len() <= s.len(),
        s.subrange(pos, pos + a.len() + b.len()) == a + b,
    ensures
        s.subrange(pos, pos + a.len() as int) == a,
        s.subrange(pos + a.len(), pos + a.len() + b.len()) == b,
{
    assert(s.subrange(pos, pos + a.len() as int) =~= s.subrange(
        pos,
        pos + a.len() + b.len(),
    ).subrange(0, a.len() as int));
    assert((a + b).subrange(0, a.len() as int) =~= a);
    assert(s.subrange(pos + a.len(), pos + a.len() + b.len()) =~= s.subrange(
        pos,
        pos + a.len() + b.len(),
    ).subrange(a.len() as int, a.len() + b.len() as int));
    assert((a + b).subrange(a.len() as int, a.len() + b.len() as int) =~= b);
}

/// Splitting a buffer region known to hold three concatenated pieces.
proof fn lemma_split3(s: Seq<u8>, pos: int, a: Seq<u8>, b: Seq<u8>, c: Seq<u8>)
    requires
        0 <= pos,
        pos + a.len() + b.len() + c.len() <= s.len(),
        s.subrange(pos, pos + a.len() + b.len() + c.len()) == a + b + c,
    ensures
        s.subrange(pos, pos + a.len() as int) == a,
        s.subrange(pos + a.len(), pos + a.len() + b.len()) == b,
        s.subrange(pos + a.len() + b.len(), pos + a.len() + b.len() + c.len()) == c,
{
    lemma_split2(s, pos, a + b, c);
    lemma_split2(s, pos, a, b);
}

/// The value encoded at `pos` is recovered by reading the bytes back.
proof fn lemma_le_val8_at(s: Seq<u8>, pos: int, x: u64)
    requires
        0 <= pos,
        pos + 8 <= s.len(),
        s.subrange(pos, pos + 8) == u64_le_seq(x),
    ensures
        le_val8(s, pos) == x,
{
    lemma_le_val8_subrange(s, pos);
    assert(le_val8(s.subrange(pos, pos + 8), 0) == le_val8(u64_le_seq(x), 0));
    lemma_u64_le_round_trip(x);
}

/// Decomposition of an encoded `Prepare`.
proof fn lemma_decomp_prepare(s: Seq<u8>, ballot: Ballot, holes: Vec<usize>)
    requires
        s == msg_bytes(PaxosMsg::Prepare { ballot, holes }),
    ensures
        s[0] == 1,
        s.len() == 25 + 8 * holes@.len(),
        s.subrange(1, 17) == ballot_enc(ballot),
        s.subrange(17, 25 + 8 * holes@.len() as int) == holes_enc(holes@),
{
    lemma_holes_items_props(holes@);
    assert(s.subrange(1, 25 + 8 * holes@.len() as int) =~= ballot_enc(ballot) + holes_enc(
        holes@,
    ));
    lemma_split2(s, 1, ballot_enc(ballot), holes_enc(holes@));
}

/// Decomposition of an encoded `Promise`.
proof fn lemma_decomp_promise(s: Seq<u8>, ballot: Ballot, accepted: Promise)
    requires
        s == msg_bytes(PaxosMsg::Promise { ballot, accepted }),
    ensures
        s[0] == 2,
        s.len() == 17 + triples_enc(accepted@).len(),
        s.subrange(1, 17) == ballot_enc(ballot),
        s.subrange(17, 17 + triples_enc(accepted@).len() as int) == triples_enc(accepted@),
{
    assert(s.subrange(1, 17 + triples_enc(accepted@).len() as int) =~= ballot_enc(ballot)
        + triples_enc(accepted@));
    lemma_split2(s, 1, ballot_enc(ballot), triples_enc(accepted@));
}

/// Decomposition of an encoded `Propose` or `Learn` (they share a shape).
#[verifier::rlimit(100)]
proof fn lemma_decomp_indexed(s: Seq<u8>, index: usize, ballot: Ballot, value: Seq<u8>)
    requires
        s.len() == 33 + value.len(),
        s.subrange(1, s.len() as int) == u64_le_seq(index as u64) + ballot_enc(ballot)
            + bytes_enc(value),
    ensures
        le_val8(s, 1) == index,
        s.subrange(9, 25) == ballot_enc(ballot),
        s.subrange(25, 33 + value.len() as int) == bytes_enc(value),
{
    lemma_split3(s, 1, u64_le_seq(index as u64), ballot_enc(ballot), bytes_enc(value));
    lemma_le_val8_at(s, 1, index as u64);
}

/// Decomposition of an encoded `Accept`.
proof fn lemma_decomp_accept(s: Seq<u8>, index: usize, ballot: Ballot)
    requires
        s == msg_bytes(PaxosMsg::Accept { index, ballot }),
    ensures
        s[0] == 4,
        s.len() == 25,
        le_val8(s, 1) == index,
        s.subrange(9, 25) == ballot_enc(ballot),
{
    assert(s.subrange(1, 25) =~= u64_le_seq(index as u64) + ballot_enc(ballot));
    lemma_split2(s, 1, u64_le_seq(index as u64), ballot_enc(ballot));
    lemma_le_val8_at(s, 1, index as u64);
}

/// How an encoded message decomposes: its tag byte, the position of each
/// field's bytes, and its total length.
proof fn lemma_msg_bytes_decomposition(s: Seq<u8>, m: PaxosMsg)
    requires
        s == msg_bytes(m),
    ensures
        s.len() >= 1,
        match m {
            PaxosMsg::Prepare { ballot, holes } => {
                &&& s[0] == 1
                &&& s.len() == 25 + 8 * holes@.len()
                &&& s.subrange(1, 17) == ballot_enc(ballot)
                &&& s.subrange(17, 25 + 8 * holes@.len() as int) == holes_enc(holes@)
            },
            PaxosMsg::Promise { ballot, accepted } => {
                &&& s[0] == 2
                &&& s.len() == 17 + triples_enc(accepted@).len()
                &&& s.subrange(1, 17) == ballot_enc(ballot)
                &&& s.subrange(17, 17 + triples_enc(accepted@).len() as int) == triples_enc(
                    accepted@,
                )
            },
            PaxosMsg::Propose { index, ballot, value } => {
                &&& s[0] == 3
                &&& s.len() == 33 + value@.len()
                &&& le_val8(s, 1) == index
                &&& s.subrange(9, 25) == ballot_enc(ballot)
                &&& s.subrange(25, 33 + value@.len() as int) == bytes_enc(value@)
            },
            PaxosMsg::Accept { index, ballot } => {
                &&& s[0] == 4
                &&& s.len() == 25
                &&& le_val8(s, 1) == index
                &&& s.subrange(9, 25) == ballot_enc(ballot)
            },
            PaxosMsg::Learn { index, ballot, value } => {
                &&& s[0] == 5
                &&& s.len() == 33 + value@.len()
                &&& le_val8(s, 1) == index
                &&& s.subrange(9, 25) == ballot_enc(ballot)
                &&& s.subrange(25, 33 + value@.len() as int) == bytes_enc(value@)
            },
            PaxosMsg::Nack { ballot } => {
                &&& s[0] == 6
                &&& s.len() == 17
                &&& s.subrange(1, 17) == ballot_enc(ballot)
            },
            PaxosMsg::ClientRequest(value) => {
                &&& s[0] == 7
                &&& s.len() == 9 + value@.len()
                &&& s.subrange(1, 9 + value@.len() as int) == bytes_enc(value@)
            },
        },
{
    match m {
        PaxosMsg::Prepare { ballot, holes } => {
            lemma_decomp_prepare(s, ballot, holes);
        },
        PaxosMsg::Promise { ballot, accepted } => {
            lemma_decomp_promise(s, ballot, accepted);
        },
        PaxosMsg::Propose { index, ballot, value } => {
            assert(s.subrange(1, s.len() as int) =~= u64_le_seq(index as u64) + ballot_enc(ballot)
                + bytes_enc(value@));
            lemma_decomp_indexed(s, index, ballot, value@);
        },
        PaxosMsg::Accept { index, ballot } => {
            lemma_decomp_accept(s, index, ballot);
        },
        PaxosMsg::Learn { index, ballot, value } => {
            assert(s.subrange(1, s.len() as int) =~= u64_le_seq(index as u64) + ballot_enc(ballot)
                + bytes_enc(value@));
            lemma_decomp_indexed(s, index, ballot, value@);
        },
        PaxosMsg::Nack { ballot } => {
            assert(s.subrange(1, 17) =~= ballot_enc(ballot));
        },
        PaxosMsg::ClientRequest(value) => {
            assert(s.subrange(1, 9 + value@.len() as int) =~= bytes_enc(value@));
        },
    }
}

/// Decodes one datagram.  The decoder accepts a buffer only when it is
/// exactly the encoding of the message it returns: any trailing or
/// malformed bytes are rejected, so a successful decode identifies the
/// (unique) message that was encoded.
#[verifier::rlimit(100)]
pub fn decode_msg(bytes: &Vec<u8>) -> (r: Option<PaxosMsg>)
    ensures
        r matches Some(m) ==> msg_bytes(m) == bytes@,
        (exists|m: PaxosMsg| bytes@ == msg_bytes(m)) ==> r is Some,
{
    proof {
        if exists|m: PaxosMsg| bytes@ == msg_bytes(m) {
            let m = choose|m: PaxosMsg| bytes@ == msg_bytes(m);
            lemma_msg_bytes_decomposition(bytes@, m);
        }
    }
    if bytes.len() == 0 {
        return None;
    }
    let tag = bytes[0];
    if tag == 1 {
        let (ballot, p1) = match read_ballot(bytes, 1) {
            Some(x) => x,
            None => {
                return None;
            },
        };
        let (holes, p2) = match read_holes_field(bytes, p1) {
            Some(x) => x,
            None => {
                return None;
            },
        };
        if p2 != bytes.len() {
            return None;
        }
        let m = PaxosMsg::Prepare { ballot, holes };
        proof {
            assert(msg_bytes(m) =~= bytes@);
        }
        Some(m)
    } else if tag == 2 {
        let (ballot, p1) = match read_ballot(bytes, 1) {
            Some(x) => x,
            None => {
                return None;
            },
        };
        let (accepted, p2) = match read_triples_field(bytes, p1) {
            Some(x) => x,
            None => {
                return None;
            },
        };
        if p2 != bytes.len() {
            return None;
        }
        let m = PaxosMsg::Promise { ballot, accepted };
        proof {
            assert(msg_bytes(m) =~= bytes@);
        }
        Some(m)
    } else if tag == 3 || tag == 5 {
        let (index64, p1) = match read_u64(bytes, 1) {
            Some(x) => x,
            None => {
                return None;
            },
        };
        if index64 > usize::MAX as u64 {
            return None;
        }
        let (ballot, p2) = match read_ballot(bytes, p1) {
            Some(x) => x,
            None => {
                return None;
            },
        };
        let (value, p3) = match read_bytes_field(bytes, p2) {
            Some(x) => x,
            None => {
                return None;
            },
        };
        if p3 != bytes.len() {
            return None;
        }
        let index = index64 as usize;
        let m = if tag == 3 {
            PaxosMsg::Propose { index, ballot, value }
        } else {
            PaxosMsg::Learn { index, ballot, value }
        };
        proof {
            lemma_le_val8_inverse(bytes@, 1);
            assert(msg_bytes(m) =~= bytes@);
        }
        Some(m)
    } else if tag == 4 {
        let (index64, p1) = match read_u64(bytes, 1) {
            Some(x) => x,
            None => {
                return None;
            },
        };
        if index64 > usize::MAX as u64 {
            return None;
        }
        let (ballot, p2) = match read_ballot(bytes, p1) {
            Some(x) => x,
            None => {
                return None;
            },
        };
        if p2 != bytes.len() {
            return None;
        }
        let m = PaxosMsg::Accept { index: index64 as usize, ballot };
        proof {
            lemma_le_val8_inverse(bytes@, 1);
            assert(msg_bytes(m) =~= bytes@);
        }
        Some(m)
    } else if tag == 6 {
        let (ballot, p1) = match read_ballot(bytes, 1) {
            Some(x) => x,
            None => {
                return None;
            },
        };
        if p1 != bytes.len() {
            return None;
        }
        let m = PaxosMsg::Nack { ballot };
        proof {
            assert(msg_bytes(m) =~= bytes@);
        }
        Some(m)
    } else if tag == 7 {
        let (value, p1) = match read_bytes_field(bytes, 1) {
            Some(x) => x,
            None => {
                return None;
            },
        };
        if p1 != bytes.len() {
            return None;
        }
        let m = PaxosMsg::ClientRequest(value);
        proof {
            assert(msg_bytes(m) =~= bytes@);
        }
        Some(m)
    } else {
        None
    }
}

} // verus!
