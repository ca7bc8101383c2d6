use pc_monitoring::acquisition::acquisition_cycle;
use pc_monitoring::frame::decode_frame;
use pc_monitoring::record::{Thermistor, ThermistorParameter};

fn device_record() -> Thermistor {
    Thermistor {
        name: b"radiator_in".to_vec(),
        parameters: ThermistorParameter { b: 3950, tn: 25, r_tn: 10_000 },
        resistance: 0,
    }
}

#[test]
fn a_cycle_updates_the_resistance_and_emits_its_frame() {
    let mut record = device_record();
    let frame = acquisition_cycle(&mut record, 2048, 4700).unwrap();
    assert_eq!(record.resistance, 4702);
    let decoded = decode_frame(&frame[..frame.len() - 1]).unwrap();
    assert_eq!(decoded, record);
}

#[test]
fn a_degenerate_code_transmits_nothing_and_keeps_the_record() {
    let mut record = device_record();
    record.resistance = 77;
    assert!(acquisition_cycle(&mut record, 0, 4700).is_none());
    assert!(acquisition_cycle(&mut record, 4095, 4700).is_none());
    assert_eq!(record.resistance, 77);
}
