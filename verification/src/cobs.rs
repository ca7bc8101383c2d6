//! Zero-elimination framing transform.
//!
//! A serialized payload is rewritten so that no byte of the output is zero:
//! the payload is cut into groups of at most 254 bytes that contain no
//! zero, and each group is sent as a code byte (the group length plus one)
//! followed by the group.  A code below 255 says a payload zero followed
//! the group; the code 255 says the group was cut only because it reached
//! the 254-byte limit.  The single literal zero on the wire is the frame
//! terminator that the caller appends, so a receiver that lost
//! synchronization can always resume at the next zero byte.

use vstd::prelude::*;

verus! {

/// Longest group of payload bytes one code byte can cover.
pub const MAX_GROUP_LEN: usize = 254;

/// Length of the leading group of a payload: the number of leading nonzero
/// bytes, capped at the group limit.
pub open spec fn group_len(p: Seq<u8>) -> int
    decreases p.len(),
{
    if p.len() == 0 || p[0] == 0 {
        0
    } else if 1 + group_len(p.skip(1)) >= 254 {
        MAX_GROUP_LEN as int
    } else {
        1 + group_len(p.skip(1))
    }
}

/// The leading group is within bounds, holds no zero, and unless it is cut
/// by the payload end or the group limit, a zero follows it.
pub proof fn lemma_group_len_props(p: Seq<u8>)
    ensures
        0 <= group_len(p) <= 254,
        group_len(p) <= p.len(),
        forall|i: int| 0 <= i < group_len(p) ==> p[i] != 0,
        group_len(p) < 254 && group_len(p) < p.len() ==> p[group_len(p)] == 0,
    decreases p.len(),
{
    if p.len() == 0 || p[0] == 0 {
    } else {
        lemma_group_len_props(p.skip(1));
        assert(forall|i: int| 1 <= i < group_len(p) ==> p[i] == p.skip(1)[i - 1]);
        if !(1 + group_len(p.skip(1)) >= 254) && group_len(p) < p.len() {
            assert(p[group_len(p)] == p.skip(1)[group_len(p.skip(1))]);
        }
    }
}

/// A zero-free prefix is a lower bound on the leading group's length.
pub proof fn lemma_group_len_lower(p: Seq<u8>, n: int)
    requires
        0 <= n <= p.len(),
        n <= 254,
        forall|i: int| 0 <= i < n ==> p[i] != 0,
    ensures
        group_len(p) >= n,
    decreases p.len(),
{
    lemma_group_len_props(p);
    if n > 0 {
        assert(p[0] != 0);
        assert(forall|i: int| 0 <= i < n - 1 ==> p.skip(1)[i] == p[i + 1]);
        lemma_group_len_lower(p.skip(1), n - 1);
        if 1 + group_len(p.skip(1)) >= 254 {
            assert(group_len(p) == 254);
        } else {
            assert(group_len(p) == 1 + group_len(p.skip(1)));
        }
    }
}

/// A zero-free prefix cut short of the group limit by the payload end or
/// by a zero is exactly the leading group.
pub proof fn lemma_group_len_exact(p: Seq<u8>, n: int)
    requires
        0 <= n < 254,
        n <= p.len(),
        forall|i: int| 0 <= i < n ==> p[i] != 0,
        n < p.len() ==> p[n] == 0,
    ensures
        group_len(p) == n,
{
    lemma_group_len_props(p);
    lemma_group_len_lower(p, n);
    if group_len(p) > n {
        assert(p[n] != 0);
    }
}

/// Zero-elimination image of a payload: the groups, each prefixed by its
/// code byte.  The frame terminator is not included.
pub open spec fn cobs_encode(p: Seq<u8>) -> Seq<u8>
    decreases p.len(),
    via cobs_encode_decreases
{
    let n = group_len(p);
    if n == p.len() && n < 254 {
        seq![(n + 1) as u8] + p
    } else if n < 254 {
        seq![(n + 1) as u8] + p.take(n) + cobs_encode(p.skip(n + 1))
    } else if p.len() == 254 {
        seq![255u8] + p
    } else {
        seq![255u8] + p.take(254) + cobs_encode(p.skip(254))
    }
}

#[via_fn]
proof fn cobs_encode_decreases(p: Seq<u8>) {
    lemma_group_len_props(p);
}

/// Payload read back from a frame body: each code byte announces how many
/// bytes follow in its group and whether a payload zero followed the
/// group.  A body that ends inside a group, or an empty body, is rejected.
pub open spec fn cobs_decode(f: Seq<u8>) -> Option<Seq<u8>>
    decreases f.len(),
{
    if f.len() == 0 {
        None
    } else {
        let c = f[0] as int;
        if c == 0 {
            None
        } else if f.len() < c {
            None
        } else {
            let data = f.subrange(1, c);
            if f.len() == c {
                Some(data)
            } else {
                match cobs_decode(f.skip(c)) {
                    Option::None => None,
                    Option::Some(tail) => Some(
                        if c == 255 {
                            data + tail
                        } else {
                            data + seq![0u8] + tail
                        },
                    ),
                }
            }
        }
    }
}

/// An encoded frame body is never empty.
pub proof fn lemma_cobs_encode_nonempty(p: Seq<u8>)
    ensures
        cobs_encode(p).len() >= 1,
{
}

/// No byte of an encoded frame body is zero: the terminator the caller
/// appends is the only zero on the wire.
pub proof fn lemma_cobs_encode_no_zero(p: Seq<u8>)
    ensures
        forall|i: int| 0 <= i < cobs_encode(p).len() ==> cobs_encode(p)[i] != 0,
    decreases p.len(),
{
    lemma_group_len_props(p);
    let n = group_len(p);
    let f = cobs_encode(p);
    if n == p.len() && n < 254 {
        assert(forall|i: int| 1 <= i < f.len() ==> f[i] == p[i - 1]);
    } else if n < 254 {
        lemma_cobs_encode_no_zero(p.skip(n + 1));
        let rest = cobs_encode(p.skip(n + 1));
        assert(forall|i: int| 1 <= i < 1 + n ==> f[i] == p[i - 1]);
        assert(forall|i: int| 1 + n <= i < f.len() ==> f[i] == rest[i - 1 - n]);
    } else if p.len() == 254 {
        assert(forall|i: int| 1 <= i < f.len() ==> f[i] == p[i - 1]);
    } else {
        lemma_cobs_encode_no_zero(p.skip(254));
        let rest = cobs_encode(p.skip(254));
        assert(forall|i: int| 1 <= i < 255 ==> f[i] == p[i - 1]);
        assert(forall|i: int| 255 <= i < f.len() ==> f[i] == rest[i - 255]);
    }
}

/// A payload shorter than the group limit encodes to exactly one more byte
/// than its own length.
pub proof fn lemma_cobs_encode_len(p: Seq<u8>)
    requires
        p.len() < 254,
    ensures
        cobs_encode(p).len() == p.len() + 1,
    decreases p.len(),
{
    lemma_group_len_props(p);
    let n = group_len(p);
    if n == p.len() {
    } else {
        lemma_cobs_encode_len(p.skip(n + 1));
    }
}

/// Decoding inverts encoding: the zero-elimination transform loses
/// nothing, for payloads of every length and content.
pub proof fn lemma_cobs_round_trip(p: Seq<u8>)
    ensures
        cobs_decode(cobs_encode(p)) == Some(p),
    decreases p.len(),
{
    lemma_group_len_props(p);
    let n = group_len(p);
    let f = cobs_encode(p);
    if n == p.len() && n < 254 {
        assert(f.subrange(1, n + 1) =~= p);
    } else if n < 254 {
        lemma_cobs_round_trip(p.skip(n + 1));
        lemma_cobs_encode_nonempty(p.skip(n + 1));
        let rest = cobs_encode(p.skip(n + 1));
        assert(f.len() == 1 + n + rest.len());
        assert(f[0] == (n + 1) as u8);
        assert(f.subrange(1, n + 1) =~= p.take(n));
        assert(f.skip(n + 1) =~= rest);
        assert(p[n] == 0);
        assert(p.take(n) + seq![0u8] + p.skip(n + 1) =~= p);
    } else if p.len() == 254 {
        assert(f.subrange(1, 255) =~= p);
    } else {
        lemma_cobs_round_trip(p.skip(254));
        lemma_cobs_encode_nonempty(p.skip(254));
        let rest = cobs_encode(p.skip(254));
        assert(f.len() == 255 + rest.len());
        assert(f[0] == 255u8);
        assert(f.subrange(1, 255) =~= p.take(254));
        assert(f.skip(255) =~= rest);
        assert(p.take(254) + p.skip(254) =~= p);
    }
}

/// Length of the leading group of the payload's suffix that begins at
/// `start`.
fn find_group_len(p: &[u8], start: usize) -> (n: usize)
    requires
        start <= p@.len(),
    ensures
        n == group_len(p@.skip(start as int)),
        start + n <= p@.len(),
        n <= 254,
{
    let ghost q = p@.skip(start as int);
    let mut i: usize = start;
    while i < p.len() && i - start < 254 && p[i] != 0
        invariant
            start <= i <= p@.len(),
            i - start <= 254,
            forall|j: int| start <= j < i ==> p@[j] != 0,
        decreases p@.len() - i,
    {
        i += 1;
    }
    let n = i - start;
    proof {
        assert(q.len() == p@.len() - start);
        assert(forall|j: int| 0 <= j < q.len() ==> q[j] == p@[start + j]);
        if n == 254 {
            lemma_group_len_props(q);
            lemma_group_len_lower(q, 254);
        } else {
            lemma_group_len_exact(q, n as int);
        }
    }
    n
}

/// Applies the zero-elimination transform to the payload's suffix that
/// begins at `start`, appending the groups to `out`.
fn encode_from(p: &[u8], start: usize, out: &mut Vec<u8>)
    requires
        start <= p@.len(),
    ensures
        final(out)@ == old(out)@ + cobs_encode(p@.skip(start as int)),
    decreases p@.len() - start,
{
    let ghost q = p@.skip(start as int);
    proof {
        lemma_group_len_props(q);
        assert(forall|j: int| 0 <= j < q.len() ==> q[j] == p@[start + j]);
    }
    let n = find_group_len(p, start);
    let plen = p.len();
    let end = start + n;
    out.push((n + 1) as u8);
    let ghost mid = out@;
    let mut i: usize = start;
    while i < end
        invariant
            end == start + n,
            start <= i <= start + n,
            start + n <= p@.len(),
            out@ == mid + p@.subrange(start as int, i as int),
        decreases start + n - i,
    {
        out.push(p[i]);
        proof {
            assert(out@ =~= mid + p@.subrange(start as int, i as int + 1));
        }
        i += 1;
    }
    proof {
        assert(p@.subrange(start as int, start + n as int) =~= q.take(n as int));
    }
    if n < 254 {
        if end == plen {
            proof {
                assert(q.take(n as int) =~= q);
                assert(out@ =~= old(out)@ + cobs_encode(q));
            }
            return ;
        }
        encode_from(p, start + n + 1, out);
        proof {
            assert(p@.skip(start + n as int + 1) =~= q.skip(n as int + 1));
            assert(out@ =~= old(out)@ + cobs_encode(q));
        }
    } else {
        if start + 254 == plen {
            proof {
                assert(q.take(254) =~= q);
                assert(out@ =~= old(out)@ + cobs_encode(q));
            }
            return ;
        }
        encode_from(p, start + 254, out);
        proof {
            assert(p@.skip(start + 254 as int) =~= q.skip(254));
            assert(out@ =~= old(out)@ + cobs_encode(q));
        }
    }
}

/// Applies the zero-elimination transform to a whole payload.
pub fn cobs_encode_bytes(p: &[u8]) -> (out: Vec<u8>)
    ensures
        out@ == cobs_encode(p@),
{
    let mut out: Vec<u8> = Vec::new();
    encode_from(p, 0, &mut out);
    proof {
        assert(p@.skip(0) =~= p@);
        assert(out@ =~= cobs_encode(p@));
    }
    out
}

/// Reverses the zero-elimination transform on the frame-body suffix that
/// begins at `start`, appending the payload bytes to `out`.  Returns false
/// on a malformed body, in which case `out` holds no meaningful value.
fn decode_from(f: &[u8], start: usize, out: &mut Vec<u8>) -> (ok: bool)
    requires
        start <= f@.len(),
    ensures
        match cobs_decode(f@.skip(start as int)) {
            Option::Some(tail) => ok && final(out)@ == old(out)@ + tail,
            Option::None => !ok,
        },
    decreases f@.len() - start,
{
    let ghost q = f@.skip(start as int);
    proof {
        assert(forall|j: int| 0 <= j < q.len() ==> q[j] == f@[start + j]);
    }
    if start == f.len() {
        return false;
    }
    let c = f[start] as usize;
    if c == 0 {
        return false;
    }
    if f.len() - start < c {
        return false;
    }
    let ghost before = out@;
    let end = start + c;
    let mut i: usize = start + 1;
    while i < end
        invariant
            end == start + c,
            start + 1 <= i <= start + c,
            start + c <= f@.len(),
            out@ == before + f@.subrange(start as int + 1, i as int),
        decreases start + c - i,
    {
        out.push(f[i]);
        proof {
            assert(out@ =~= before + f@.subrange(start as int + 1, i as int + 1));
        }
        i += 1;
    }
    proof {
        assert(f@.subrange(start as int + 1, start + c as int) =~= q.subrange(1, c as int));
    }
    if f.len() - start == c {
        proof {
            assert(out@ =~= before + q.subrange(1, c as int));
        }
        return true;
    }
    if c != 255 {
        out.push(0);
    }
    let ghost with_sep = out@;
    let ok = decode_from(f, start + c, out);
    proof {
        assert(f@.skip(start + c as int) =~= q.skip(c as int));
        if cobs_decode(q.skip(c as int)) is Some {
            let tail = cobs_decode(q.skip(c as int))->Some_0;
            if c == 255 {
                assert(out@ =~= before + (q.subrange(1, c as int) + tail));
            } else {
                assert(out@ =~= before + (q.subrange(1, c as int) + seq![0u8] + tail));
            }
        }
    }
    ok
}

/// Reverses the zero-elimination transform on a whole frame body.
pub fn cobs_decode_bytes(f: &[u8]) -> (r: Option<Vec<u8>>)
    ensures
        match cobs_decode(f@) {
            Option::Some(p) => r matches Some(v) && v@ == p,
            Option::None => r is None,
        },
{
    let mut out: Vec<u8> = Vec::new();
    let ok = decode_from(f, 0, &mut out);
    proof {
        assert(f@.skip(0) =~= f@);
        if cobs_decode(f@) is Some {
            assert(out@ =~= cobs_decode(f@)->Some_0);
        }
    }
    if ok {
        Some(out)
    } else {
        None
    }
}

} // verus!
