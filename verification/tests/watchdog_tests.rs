use pc_monitoring::watchdog::{LinkPhase, LinkWatchdog};

#[test]
fn threshold_cycles_without_data_trigger_exactly_one_reset() {
    let mut wd = LinkWatchdog::new(20);
    let mut resets = 0;
    for _ in 0..20 {
        if wd.note_empty_cycle() {
            resets += 1;
        }
    }
    assert_eq!(resets, 1);

    // The count restarted for the fresh connection: the next stretch of
    // silence needs the full threshold again.
    let mut more = 0;
    for _ in 0..19 {
        if wd.note_empty_cycle() {
            more += 1;
        }
    }
    assert_eq!(more, 0);
}

#[test]
fn fewer_cycles_than_the_threshold_never_reset() {
    let mut wd = LinkWatchdog::new(20);
    for _ in 0..19 {
        assert!(!wd.note_empty_cycle());
    }
}

#[test]
fn a_decode_clears_the_counter() {
    let mut wd = LinkWatchdog::new(20);
    for _ in 0..19 {
        assert!(!wd.note_empty_cycle());
    }
    wd.note_decode();
    assert_eq!(wd.phase(), LinkPhase::Connected);
    // The earlier silence no longer counts.
    for _ in 0..19 {
        assert!(!wd.note_empty_cycle());
    }
    assert_eq!(wd.phase(), LinkPhase::Stalled);
    assert!(wd.note_empty_cycle());
}
