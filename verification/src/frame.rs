//! Whole frames: a serialized record behind the zero-elimination
//! transform, terminated by the single literal zero byte.

use vstd::prelude::*;
use crate::cobs::{
    cobs_decode, cobs_decode_bytes, cobs_encode, cobs_encode_bytes, lemma_cobs_encode_len,
    lemma_cobs_round_trip,
};
use crate::codec::{
    deserialize, deserialize_spec, lemma_serialize_round_trip, serialize, serialize_spec,
    MAX_PAYLOAD_LEN,
};
use crate::record::{record_wf, Thermistor, ThermistorView, NAME_CAPACITY};

verus! {

/// Longest frame the encoder can produce: the largest payload, one group
/// code byte, and the terminator.
pub const MAX_FRAME_LEN: usize = 79;

/// Encoding fails only when the record does not fit the wire format.
#[derive(Clone, Copy, Debug, PartialEq, Eq, Structural)]
pub enum EncodeError {
    /// The record's name exceeds the fixed name capacity, so the frame
    /// would exceed the sized transmit buffer.
    NameTooLong,
}

/// Frame body of a record: its serialized payload behind the
/// zero-elimination transform, without the terminator.
pub open spec fn frame_body_spec(r: ThermistorView) -> Seq<u8> {
    cobs_encode(serialize_spec(r))
}

/// Full wire image of a record: the frame body and the terminating zero.
pub open spec fn encode_frame_spec(r: ThermistorView) -> Seq<u8> {
    frame_body_spec(r) + seq![0u8]
}

/// Record read back from a frame body (the bytes between terminators):
/// reverse the zero-elimination transform, then deserialize.
pub open spec fn decode_frame_spec(body: Seq<u8>) -> Option<ThermistorView> {
    match cobs_decode(body) {
        Option::Some(p) => deserialize_spec(p),
        Option::None => None,
    }
}

/// Decoding a frame body restores the record it was made from: the wire
/// format loses nothing, for every well-formed record.
pub proof fn lemma_frame_round_trip(r: ThermistorView)
    requires
        record_wf(r),
    ensures
        decode_frame_spec(frame_body_spec(r)) == Some(r),
{
    lemma_cobs_round_trip(serialize_spec(r));
    lemma_serialize_round_trip(r);
}

/// Encodes a record into its wire frame, terminator included.  Fails
/// loudly when the name exceeds capacity; never truncates.
pub fn encode_frame(r: &Thermistor) -> (res: Result<Vec<u8>, EncodeError>)
    ensures
        match res {
            Ok(v) => record_wf(r@) && v@ == encode_frame_spec(r@) && v@.len() <= MAX_FRAME_LEN,
            Err(e) => !record_wf(r@) && e == EncodeError::NameTooLong,
        },
{
    if r.name.len() > NAME_CAPACITY {
        return Err(EncodeError::NameTooLong);
    }
    let payload = serialize(r);
    let mut frame = cobs_encode_bytes(payload.as_slice());
    proof {
        assert(payload@.len() <= MAX_PAYLOAD_LEN);
        lemma_cobs_encode_len(payload@);
    }
    frame.push(0);
    proof {
        assert(frame@ =~= encode_frame_spec(r@));
    }
    Ok(frame)
}

/// Decodes a frame body (the bytes between terminators) back into a
/// record; rejects exactly the bodies that `decode_frame_spec` rejects.
pub fn decode_frame(body: &[u8]) -> (res: Option<Thermistor>)
    ensures
        match res {
            Some(rec) => decode_frame_spec(body@) == Some(rec@) && record_wf(rec@),
            None => decode_frame_spec(body@) is None,
        },
{
    match cobs_decode_bytes(body) {
        Some(payload) => deserialize(payload.as_slice()),
        None => None,
    }
}

} // verus!
