use pc_monitoring::frame::encode_frame;
use pc_monitoring::record::{Thermistor, ThermistorParameter};
use pc_monitoring::stream::{FeedResult, StreamDecoder};

fn record(name: &str, resistance: u32) -> Thermistor {
    Thermistor {
        name: name.as_bytes().to_vec(),
        parameters: ThermistorParameter { b: 3950, tn: 25, r_tn: 10_000 },
        resistance,
    }
}

fn decode_all(decoder: &mut StreamDecoder, chunk: &[u8]) -> Vec<Thermistor> {
    decoder.feed_all(chunk)
}

#[test]
fn one_frame_in_one_chunk() {
    let rec = record("radiator_in", 4700);
    let frame = encode_frame(&rec).unwrap();
    let mut decoder = StreamDecoder::new();
    let out = decode_all(&mut decoder, &frame);
    assert_eq!(out, vec![rec]);
}

#[test]
fn chunking_never_changes_the_decoded_records() {
    let records = vec![record("a", 1), record("radiator_in", 4700), record("b", u32::MAX)];
    let mut stream: Vec<u8> = Vec::new();
    for r in &records {
        stream.extend_from_slice(&encode_frame(r).unwrap());
    }

    let mut whole = StreamDecoder::new();
    let at_once = decode_all(&mut whole, &stream);
    assert_eq!(at_once, records);

    for chunk_len in [1usize, 2, 3, 7, 16, 64] {
        let mut decoder = StreamDecoder::new();
        let mut collected = Vec::new();
        for chunk in stream.chunks(chunk_len) {
            collected.extend(decode_all(&mut decoder, chunk));
        }
        assert_eq!(collected, records);
    }
}

#[test]
fn feed_reports_one_event_at_a_time() {
    let rec = record("x", 7);
    let frame = encode_frame(&rec).unwrap();
    let mut decoder = StreamDecoder::new();
    match decoder.feed(&frame) {
        FeedResult::Success(out, consumed) => {
            assert_eq!(out, rec);
            assert_eq!(consumed, frame.len());
        }
        _ => panic!("expected a decoded record"),
    }
}

#[test]
fn garbage_frames_are_dropped_and_decoding_recovers() {
    let rec = record("after_noise", 99);
    let mut stream = vec![0x05, 0x11, 0x00];
    stream.extend_from_slice(&encode_frame(&rec).unwrap());

    let mut decoder = StreamDecoder::new();
    match decoder.feed(&stream) {
        FeedResult::DeserError(consumed) => assert_eq!(consumed, 3),
        _ => panic!("expected the malformed frame to be dropped"),
    }
    let out = decode_all(&mut decoder, &stream[3..]);
    assert_eq!(out, vec![rec]);
}

#[test]
fn filling_the_window_without_terminator_overflows_and_resynchronizes() {
    let mut decoder = StreamDecoder::new();
    let noise = vec![0xAAu8; 512];
    match decoder.feed(&noise) {
        FeedResult::OverFull(consumed) => assert_eq!(consumed, 512),
        _ => panic!("expected the accumulator to report overflow"),
    }

    // After the overflow the decoder resynchronizes at the next
    // terminator: the partial noise frame is dropped, the next
    // well-formed frame decodes.
    let rec = record("fresh", 1234);
    let mut rest = vec![0xAA, 0x00];
    rest.extend_from_slice(&encode_frame(&rec).unwrap());
    let out = decode_all(&mut decoder, &rest);
    assert_eq!(out, vec![rec]);
}

#[test]
fn a_frame_longer_than_the_window_is_noise() {
    // 600 nonzero bytes, then a terminator, then a good frame.
    let rec = record("ok", 5);
    let mut stream = vec![0x55u8; 600];
    stream.push(0);
    stream.extend_from_slice(&encode_frame(&rec).unwrap());

    let mut decoder = StreamDecoder::new();
    let out = decode_all(&mut decoder, &stream);
    assert_eq!(out, vec![rec]);
}
