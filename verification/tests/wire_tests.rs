use pc_monitoring::cobs::{cobs_decode_bytes, cobs_encode_bytes};
use pc_monitoring::frame::{decode_frame, encode_frame, EncodeError};
use pc_monitoring::record::{Thermistor, ThermistorParameter};

fn sample_record() -> Thermistor {
    Thermistor {
        name: b"radiator_in".to_vec(),
        parameters: ThermistorParameter { b: 3950, tn: 25, r_tn: 10_000 },
        resistance: 4_700,
    }
}

#[test]
fn frame_round_trips_a_record() {
    let record = sample_record();
    let frame = encode_frame(&record).unwrap();
    assert_eq!(*frame.last().unwrap(), 0);
    let body = &frame[..frame.len() - 1];
    let decoded = decode_frame(body).unwrap();
    assert_eq!(decoded, record);
}

#[test]
fn frame_round_trips_edge_records() {
    let records = vec![
        Thermistor {
            name: Vec::new(),
            parameters: ThermistorParameter { b: 0, tn: -32768, r_tn: 0 },
            resistance: 0,
        },
        Thermistor {
            name: vec![0u8; 64],
            parameters: ThermistorParameter { b: 65535, tn: 32767, r_tn: u32::MAX },
            resistance: u32::MAX,
        },
    ];
    for record in records {
        let frame = encode_frame(&record).unwrap();
        assert!(frame.len() <= 79);
        let zeros: Vec<usize> =
            frame.iter().enumerate().filter(|(_, b)| **b == 0).map(|(i, _)| i).collect();
        assert_eq!(zeros, vec![frame.len() - 1]);
        let decoded = decode_frame(&frame[..frame.len() - 1]).unwrap();
        assert_eq!(decoded, record);
    }
}

#[test]
fn encode_rejects_oversized_name() {
    let record = Thermistor {
        name: vec![b'x'; 65],
        parameters: ThermistorParameter { b: 1, tn: 0, r_tn: 1 },
        resistance: 1,
    };
    assert_eq!(encode_frame(&record).unwrap_err(), EncodeError::NameTooLong);
}

#[test]
fn zero_elimination_matches_known_vectors() {
    assert_eq!(cobs_encode_bytes(&[]), vec![0x01]);
    assert_eq!(cobs_encode_bytes(&[0x00]), vec![0x01, 0x01]);
    assert_eq!(
        cobs_encode_bytes(&[0x11, 0x22, 0x00, 0x33]),
        vec![0x03, 0x11, 0x22, 0x02, 0x33]
    );
    let long: Vec<u8> = (0..254u32).map(|i| (i % 255 + 1) as u8).collect();
    let encoded = cobs_encode_bytes(&long);
    assert_eq!(encoded.len(), 255);
    assert_eq!(encoded[0], 0xFF);
    assert_eq!(cobs_decode_bytes(&encoded).unwrap(), long);
}

#[test]
fn zero_elimination_round_trips_long_payloads() {
    for len in [0usize, 1, 253, 254, 255, 300, 600] {
        let payload: Vec<u8> = (0..len).map(|i| (i % 7) as u8).collect();
        let body = cobs_encode_bytes(&payload);
        assert!(body.iter().all(|b| *b != 0));
        assert_eq!(cobs_decode_bytes(&body).unwrap(), payload);
    }
}

#[test]
fn malformed_bodies_are_rejected() {
    assert!(cobs_decode_bytes(&[]).is_none());
    assert!(cobs_decode_bytes(&[0x05, 0x11]).is_none());
    assert!(decode_frame(&[0x05, 0x11]).is_none());
    assert!(decode_frame(&[0x01]).is_none());
}

#[test]
fn decode_reads_the_documented_layout() {
    // name "A"; beta 3950; reference temperature 25 C (excess-32768 word
    // 0x8019); reference resistance 10000; resistance 4700; little endian.
    let body = vec![
        0x09, 0x01, 0x41, 0x6E, 0x0F, 0x19, 0x80, 0x10, 0x27, 0x01, 0x03, 0x5C, 0x12, 0x01, 0x01,
    ];
    let decoded = decode_frame(&body).unwrap();
    assert_eq!(decoded.name, b"A".to_vec());
    assert_eq!(decoded.parameters.b, 3950);
    assert_eq!(decoded.parameters.tn, 25);
    assert_eq!(decoded.parameters.r_tn, 10_000);
    assert_eq!(decoded.resistance, 4_700);
}
