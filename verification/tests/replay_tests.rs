use muco_relay::replay::{
    get_first_timestamp, inter_arrival_gaps, log_record_bytes, log_stats, parse_log,
    playback_delay, ConsoleCmd,
};

fn record(delta: u32, payload: &[u8]) -> Vec<u8> {
    let mut v = delta.to_le_bytes().to_vec();
    v.extend_from_slice(&(payload.len() as u32).to_le_bytes());
    v.extend_from_slice(payload);
    v
}

#[test]
fn parse_two_records() {
    // S5: {delta=0, frame=X}, {delta=100, frame=Y}
    let mut log = record(0, &[0xAA]);
    log.extend_from_slice(&record(100, &[0xBB, 0xCC]));
    let records = parse_log(&log).unwrap();
    assert_eq!(records.len(), 2);
    assert_eq!(records[0].delta_ms, 0);
    assert_eq!(records[0].frame, [1u32.to_le_bytes().to_vec(), vec![0xAA]].concat());
    assert_eq!(records[1].delta_ms, 100);
    assert_eq!(records[1].frame, [2u32.to_le_bytes().to_vec(), vec![0xBB, 0xCC]].concat());
}

#[test]
fn playback_schedule_matches_offsets() {
    // the first record goes out immediately, the second ~100 ms later
    assert_eq!(playback_delay(0, 0), 0);
    assert_eq!(playback_delay(100, 0), 100);
    assert_eq!(playback_delay(100, 40), 60);
    assert_eq!(playback_delay(100, 150), 0);
}

#[test]
fn parse_rejects_torn_record() {
    let mut log = record(0, &[0xAA]);
    log.pop();
    assert!(parse_log(&log).is_err());
}

#[test]
fn first_timestamp() {
    let log = record(7, &[0xAA]);
    assert_eq!(get_first_timestamp(&log), Some(7));
    assert_eq!(get_first_timestamp(&[1, 2]), None);
}

#[test]
fn record_bytes_round_trip() {
    let frame = [1u32.to_le_bytes().to_vec(), vec![0xAA]].concat();
    let bytes = log_record_bytes(33, &frame);
    assert_eq!(bytes, record(33, &[0xAA]));
}

#[test]
fn stats_of_a_log() {
    let mut log = record(10, &[0xAA]);
    log.extend_from_slice(&record(110, &[0xBB, 0xCC]));
    log.extend_from_slice(&record(160, &[]));
    let records = parse_log(&log).unwrap();
    let stats = log_stats(&records).unwrap();
    assert_eq!(stats.msg_count, 3);
    assert_eq!(stats.first_delta, 10);
    assert_eq!(stats.last_delta, 160);
    assert_eq!(stats.duration_ms, 150);
    // frame bytes include the four-byte length prefixes
    assert_eq!(stats.total_frame_bytes, 5 + 6 + 4);
    let gaps = inter_arrival_gaps(&records);
    assert_eq!(gaps, vec![100, 50]);
}

#[test]
fn console_commands() {
    assert_eq!(
        ConsoleCmd::parse(b"display some.muco_log"),
        Some(ConsoleCmd::Display(b"some.muco_log".to_vec()))
    );
    assert_eq!(ConsoleCmd::parse(b"play  x "), Some(ConsoleCmd::Play(b"x".to_vec())));
    assert_eq!(ConsoleCmd::parse(b"loop x"), Some(ConsoleCmd::Loop(b"x".to_vec())));
    assert_eq!(ConsoleCmd::parse(b"halt x"), None);
    assert_eq!(ConsoleCmd::parse(b"display"), Some(ConsoleCmd::Display(Vec::new())));
}
