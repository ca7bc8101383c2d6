//! Compact binary encoding of a reading record.
//!
//! Field order is fixed: the name (one length byte, then the name bytes),
//! the Beta coefficient, the reference temperature, the reference
//! resistance, and the last resistance.  Multi-byte fields are laid out
//! little endian; the signed reference temperature is carried as an
//! excess-32768 word so that every field is a plain unsigned value on the
//! wire.

use vstd::prelude::*;
use vstd::arithmetic::div_mod::{lemma_fundamental_div_mod, lemma_div_denominator};
use crate::record::{Thermistor, ThermistorParameter, ThermistorView, record_wf, NAME_CAPACITY};

verus! {

/// Number of payload bytes that follow the name: two u16 fields and two
/// u32 fields.
pub const FIXED_FIELDS_LEN: usize = 12;

/// Largest serialized payload: length byte, full-capacity name, fixed
/// fields.
pub const MAX_PAYLOAD_LEN: usize = 77;

/// Little-endian image of a 16-bit value.
pub open spec fn u16_le(v: u16) -> Seq<u8> {
    seq![(v % 256) as u8, (v / 256) as u8]
}

/// Little-endian image of a 32-bit value.
pub open spec fn u32_le(v: u32) -> Seq<u8> {
    seq![
        (v % 256) as u8,
        ((v / 256) % 256) as u8,
        ((v / 0x10000) % 256) as u8,
        (v / 0x1000000) as u8,
    ]
}

/// 16-bit value read back from its little-endian bytes.
pub open spec fn u16_of_le(lo: u8, hi: u8) -> u16 {
    (lo as int + 256 * hi as int) as u16
}

/// 32-bit value read back from its little-endian bytes.
pub open spec fn u32_of_le(b0: u8, b1: u8, b2: u8, b3: u8) -> u32 {
    (b0 as int + 256 * b1 as int + 0x10000 * b2 as int + 0x1000000 * b3 as int) as u32
}

/// Excess-32768 word carrying the signed reference temperature.
pub open spec fn tn_word(tn: i16) -> u16 {
    (tn as int + 32768) as u16
}

/// Signed reference temperature read back from its excess-32768 word.
pub open spec fn tn_of_word(w: u16) -> i16 {
    (w as int - 32768) as i16
}

/// Serialized payload of a record: name length, name bytes, Beta
/// coefficient, reference temperature word, reference resistance, last
/// resistance.
pub open spec fn serialize_spec(r: ThermistorView) -> Seq<u8> {
    seq![r.name.len() as u8] + r.name + u16_le(r.b) + u16_le(tn_word(r.tn)) + u32_le(r.r_tn)
        + u32_le(r.resistance)
}

/// Record read back from a serialized payload.  The payload must carry a
/// name length within capacity and exactly the bytes the fields need;
/// anything else is rejected.
pub open spec fn deserialize_spec(p: Seq<u8>) -> Option<ThermistorView> {
    if p.len() == 0 {
        None
    } else {
        let l = p[0] as int;
        if l > NAME_CAPACITY || p.len() != 1 + l + FIXED_FIELDS_LEN {
            None
        } else {
            Some(
                ThermistorView {
                    name: p.subrange(1, 1 + l),
                    b: u16_of_le(p[1 + l], p[2 + l]),
                    tn: tn_of_word(u16_of_le(p[3 + l], p[4 + l])),
                    r_tn: u32_of_le(p[5 + l], p[6 + l], p[7 + l], p[8 + l]),
                    resistance: u32_of_le(p[9 + l], p[10 + l], p[11 + l], p[12 + l]),
                },
            )
        }
    }
}

/// Reading a 16-bit value back from its little-endian bytes restores it.
pub proof fn lemma_u16_le_round_trip(v: u16)
    ensures
        u16_of_le(u16_le(v)[0], u16_le(v)[1]) == v,
{
    lemma_fundamental_div_mod(v as int, 256);
}

/// Reading a 32-bit value back from its little-endian bytes restores it.
pub proof fn lemma_u32_le_round_trip(v: u32)
    ensures
        u32_of_le(u32_le(v)[0], u32_le(v)[1], u32_le(v)[2], u32_le(v)[3]) == v,
{
    lemma_fundamental_div_mod(v as int, 256);
    lemma_fundamental_div_mod(v as int / 256, 256);
    lemma_fundamental_div_mod(v as int / 0x10000, 256);
    lemma_div_denominator(v as int, 256, 256);
    lemma_div_denominator(v as int, 0x10000, 256);
}

/// Reading the reference temperature back from its excess-32768 word
/// restores it.
pub proof fn lemma_tn_round_trip(tn: i16)
    ensures
        tn_of_word(tn_word(tn)) == tn,
{
}

/// Deserialization inverts serialization on every well-formed record.
pub proof fn lemma_serialize_round_trip(r: ThermistorView)
    requires
        record_wf(r),
    ensures
        deserialize_spec(serialize_spec(r)) == Some(r),
{
    let p = serialize_spec(r);
    let l = r.name.len() as int;
    assert(p.len() == 1 + l + FIXED_FIELDS_LEN);
    assert(p[0] == l as u8);
    assert(p.subrange(1, 1 + l) =~= r.name);
    lemma_u16_le_round_trip(r.b);
    lemma_u16_le_round_trip(tn_word(r.tn));
    lemma_u32_le_round_trip(r.r_tn);
    lemma_u32_le_round_trip(r.resistance);
    lemma_tn_round_trip(r.tn);
    assert(p[1 + l] == u16_le(r.b)[0] && p[2 + l] == u16_le(r.b)[1]);
    assert(p[3 + l] == u16_le(tn_word(r.tn))[0] && p[4 + l] == u16_le(tn_word(r.tn))[1]);
    assert(p[5 + l] == u32_le(r.r_tn)[0] && p[6 + l] == u32_le(r.r_tn)[1] && p[7 + l]
        == u32_le(r.r_tn)[2] && p[8 + l] == u32_le(r.r_tn)[3]);
    assert(p[9 + l] == u32_le(r.resistance)[0] && p[10 + l] == u32_le(r.resistance)[1] && p[11 + l]
        == u32_le(r.resistance)[2] && p[12 + l] == u32_le(r.resistance)[3]);
    assert(deserialize_spec(p)->Some_0 =~= r);
}

/// Serializes a record into its payload bytes.
pub fn serialize(r: &Thermistor) -> (out: Vec<u8>)
    requires
        record_wf(r@),
    ensures
        out@ == serialize_spec(r@),
{
    let mut out: Vec<u8> = Vec::new();
    out.push(r.name.len() as u8);
    let mut i: usize = 0;
    while i < r.name.len()
        invariant
            i <= r.name@.len(),
            out@ == seq![r.name@.len() as u8] + r.name@.take(i as int),
        decreases r.name@.len() - i,
    {
        out.push(r.name[i]);
        proof {
            assert(out@ =~= seq![r.name@.len() as u8] + r.name@.take(i as int + 1));
        }
        i += 1;
    }
    proof {
        assert(r.name@.take(r.name@.len() as int) =~= r.name@);
    }
    push_u16_le(&mut out, r.parameters.b);
    let word: u16 = ((r.parameters.tn as i32) + 32768) as u16;
    assert(word == tn_word(r.parameters.tn));
    push_u16_le(&mut out, word);
    push_u32_le(&mut out, r.parameters.r_tn);
    push_u32_le(&mut out, r.resistance);
    proof {
        assert(out@ =~= serialize_spec(r@));
    }
    out
}

/// Appends the little-endian bytes of a 16-bit value.
fn push_u16_le(out: &mut Vec<u8>, v: u16)
    ensures
        final(out)@ == old(out)@ + u16_le(v),
{
    out.push((v % 256) as u8);
    out.push((v / 256) as u8);
    proof {
        assert(final(out)@ =~= old(out)@ + u16_le(v));
    }
}

/// Appends the little-endian bytes of a 32-bit value.
fn push_u32_le(out: &mut Vec<u8>, v: u32)
    ensures
        final(out)@ == old(out)@ + u32_le(v),
{
    out.push((v % 256) as u8);
    out.push(((v / 256) % 256) as u8);
    out.push(((v / 0x10000) % 256) as u8);
    out.push((v / 0x1000000) as u8);
    proof {
        assert(final(out)@ =~= old(out)@ + u32_le(v));
    }
}

/// Reads a record back from a serialized payload; rejects any payload that
/// `deserialize_spec` rejects.
pub fn deserialize(p: &[u8]) -> (r: Option<Thermistor>)
    ensures
        match r {
            Some(rec) => deserialize_spec(p@) == Some(rec@) && record_wf(rec@),
            None => deserialize_spec(p@) is None,
        },
{
    if p.len() == 0 {
        return None;
    }
    let l = p[0] as usize;
    if l > NAME_CAPACITY || p.len() != 1 + l + FIXED_FIELDS_LEN {
        return None;
    }
    let mut name: Vec<u8> = Vec::new();
    let mut i: usize = 0;
    while i < l
        invariant
            l + 13 == p@.len(),
            i <= l,
            name@ == p@.subrange(1, 1 + i as int),
        decreases l - i,
    {
        name.push(p[1 + i]);
        proof {
            assert(name@ =~= p@.subrange(1, 1 + i as int + 1));
        }
        i += 1;
    }
    let b: u16 = read_u16_le(p[1 + l], p[2 + l]);
    let word: u16 = read_u16_le(p[3 + l], p[4 + l]);
    let tn: i16 = ((word as i32) - 32768) as i16;
    assert(tn == tn_of_word(word));
    let r_tn: u32 = read_u32_le(p[5 + l], p[6 + l], p[7 + l], p[8 + l]);
    let resistance: u32 = read_u32_le(p[9 + l], p[10 + l], p[11 + l], p[12 + l]);
    let rec = Thermistor {
        name,
        parameters: ThermistorParameter { b, tn, r_tn },
        resistance,
    };
    proof {
        assert(deserialize_spec(p@)->Some_0 =~= rec@);
    }
    Some(rec)
}

/// Combines two little-endian bytes into a 16-bit value.
fn read_u16_le(lo: u8, hi: u8) -> (v: u16)
    ensures
        v == u16_of_le(lo, hi),
{
    (lo as u16) + 256 * (hi as u16)
}

/// Combines four little-endian bytes into a 32-bit value.
fn read_u32_le(b0: u8, b1: u8, b2: u8, b3: u8) -> (v: u32)
    ensures
        v == u32_of_le(b0, b1, b2, b3),
{
    (b0 as u32) + 256 * (b1 as u32) + 0x10000 * (b2 as u32) + 0x1000000 * (b3 as u32)
}

} // verus!
