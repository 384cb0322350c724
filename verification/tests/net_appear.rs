use erdueltools::net_appear::{
    capture_active, is_braid, note_received, note_sent, poll, received_length,
    request_combat_capture, take_remote_braid_triggers, Trace,
};

const SINGLE: [u8; 9] = [0x0D, 0x01, 0x58, 0x02, 0x00, 0x77, 0x0C, 0x01, 0x25];
const BATCHED: [u8; 10] = [0x0D, 0x02, 0x08, 0x00, 0x00, 0x00, 0x58, 0x02, 0x00, 0x00];

#[test]
fn only_the_last_packets_are_kept() {
    let mut trace = Trace::new();
    for n in 0..200u64 {
        note_sent(&mut trace, n + 1000, &[n as u8], 0);
    }
    assert_eq!(trace.recent.len(), 128);
    assert_eq!(trace.recent[0].packet_type, 1072);
    assert_eq!(trace.recent[127].packet_type, 1199);
    assert!(trace.events.is_empty());
}

#[test]
fn payloads_are_cut() {
    let mut trace = Trace::new();
    note_sent(&mut trace, 1, &vec![7; 4096], 0);
    assert_eq!(trace.recent[0].actual_len, 4096);
    assert_eq!(trace.recent[0].payload, vec![7; 512]);
    note_sent(&mut trace, 1, &vec![7; 4097], 0);
    note_sent(&mut trace, 1, &[], 0);
    assert_eq!(trace.recent.len(), 1);
}

#[test]
fn some_packets_are_written_down_in_any_case() {
    let mut trace = Trace::new();
    assert!(!note_sent(&mut trace, 12, &vec![0; 192], 0));
    note_sent(&mut trace, 12, &vec![0; 191], 0);
    note_sent(&mut trace, 8, &[1], 0);
    note_sent(&mut trace, 60, &[1], 0);
    note_sent(&mut trace, 61, &[1], 0);
    assert!(note_sent(&mut trace, 38, &[1], 0));
    assert_eq!(trace.events.len(), 4);
    let lines = poll(&mut trace);
    assert_eq!(lines[1], "source=send type=8 peer=0x0 len=1 captured=1 payload=01");
    assert!(trace.events.is_empty());
    assert_eq!(trace.recent.len(), 6);
}

#[test]
fn a_capture_writes_down_what_was_and_what_comes() {
    let mut trace = Trace::new();
    note_received(&mut trace, 0xAB, 5, &[0x1F, 0xA0], None, 100);
    request_combat_capture(&mut trace, "local_death", 1_000);
    assert!(capture_active(&trace, 3_999));
    assert!(!capture_active(&trace, 4_001));
    note_received(&mut trace, 0xAB, 6, &[1], None, 3_000);
    note_received(&mut trace, 0xAB, 7, &[1], None, 5_000);
    assert_eq!(
        poll(&mut trace),
        vec![
            "combat_capture_begin event=local_death".to_owned(),
            "source=recv type=5 peer=0xab len=2 captured=2 payload=1FA0".to_owned(),
            "combat_capture_edge event=local_death".to_owned(),
            "source=recv type=6 peer=0xab len=1 captured=1 payload=01".to_owned(),
        ],
    );
}

#[test]
fn events_are_bounded() {
    let mut trace = Trace::new();
    for _ in 0..600 {
        note_sent(&mut trace, 8, &[1], 0);
    }
    assert_eq!(trace.events.len(), 512);
}

#[test]
fn braids_are_recognized() {
    assert!(is_braid(&SINGLE));
    assert!(is_braid(&BATCHED));
    assert!(!is_braid(&SINGLE[..8]));
    assert!(!is_braid(&BATCHED[..9]));
    let mut other = SINGLE;
    other[8] = 0x26;
    assert!(!is_braid(&other));
}

#[test]
fn braids_are_noted_with_their_owner() {
    let mut trace = Trace::new();
    note_received(&mut trace, 7, 24, &SINGLE, Some(0x1000_0002), 0);
    note_received(&mut trace, 8, 24, &BATCHED, Some(0x3000_0002), 0);
    note_received(&mut trace, 9, 24, &BATCHED, None, 0);
    note_received(&mut trace, 9, 25, &SINGLE, Some(0x1000_0002), 0);
    note_received(&mut trace, 9, 24, &[1, 2], Some(0x1000_0002), 0);
    assert_eq!(
        take_remote_braid_triggers(&mut trace),
        vec![(0x1000_0002, 7, 9), (0, 8, 10), (0, 9, 10)],
    );
    assert!(take_remote_braid_triggers(&mut trace).is_empty());
    assert_eq!(trace.recent.len(), 5);
}

#[test]
fn lengths_are_bounded() {
    assert_eq!(received_length(-1, 100), 0);
    assert_eq!(received_length(0, 100), 0);
    assert_eq!(received_length(50, 100), 50);
    assert_eq!(received_length(150, 100), 100);
    assert_eq!(received_length(i32::MAX, u32::MAX), 4096);
}
