use muco_relay::vlq::{apply_diff, decode_vlq};

#[test]
fn vlq_single_byte() {
    let buf = vec![0x05u8, 0xFF];
    let mut cursor = 0usize;
    assert_eq!(decode_vlq(&mut cursor, &buf), Some(5));
    assert_eq!(cursor, 1);
}

#[test]
fn vlq_two_bytes_least_significant_first() {
    // 0x96 = continuation bit + 0x16; value = 0x16 + 128 * 1 = 150
    let buf = vec![0x96u8, 0x01];
    let mut cursor = 0usize;
    assert_eq!(decode_vlq(&mut cursor, &buf), Some(150));
    assert_eq!(cursor, 2);
}

#[test]
fn vlq_runs_off_the_end() {
    let buf = vec![0x80u8, 0x80];
    let mut cursor = 0usize;
    assert_eq!(decode_vlq(&mut cursor, &buf), None);
}

#[test]
fn vlq_zero_with_redundant_groups() {
    let buf = vec![0x80u8, 0x80, 0x00];
    let mut cursor = 0usize;
    assert_eq!(decode_vlq(&mut cursor, &buf), Some(0));
    assert_eq!(cursor, 3);
}

#[test]
fn diff_overwrites_a_middle_run() {
    // S6: total=4, same=2, diff_len=1, bytes=[0x99], same=1
    let mut buffer = vec![0x10u8, 0x20, 0x30, 0x40];
    let diff = vec![4u8, 2, 1, 0x99, 1];
    assert_eq!(apply_diff(&mut buffer, &diff), Some(()));
    assert_eq!(buffer, vec![0x10, 0x20, 0x99, 0x40]);
}

#[test]
fn all_same_diff_leaves_buffer_unchanged() {
    let mut buffer = vec![1u8, 2, 3, 4];
    let diff = vec![4u8, 4];
    assert_eq!(apply_diff(&mut buffer, &diff), Some(()));
    assert_eq!(buffer, vec![1, 2, 3, 4]);
}

#[test]
fn all_same_diff_zero_extends() {
    let mut buffer = vec![1u8, 2];
    let diff = vec![6u8, 6];
    assert_eq!(apply_diff(&mut buffer, &diff), Some(()));
    assert_eq!(buffer, vec![1, 2, 0, 0, 0, 0]);
}

#[test]
fn diff_with_malformed_quantity_fails() {
    let mut buffer = vec![1u8, 2, 3];
    let diff = vec![3u8, 0x80];
    assert_eq!(apply_diff(&mut buffer, &diff), None);
}

#[test]
fn diff_with_short_replacement_fails() {
    // claims 2 replacement bytes but provides none
    let mut buffer = vec![1u8, 2, 3];
    let diff = vec![3u8, 0, 2];
    assert_eq!(apply_diff(&mut buffer, &diff), None);
}
