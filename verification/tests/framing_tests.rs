use muco_relay::framing::{consume_prefix, dequeue_msg, drain_frames, find_subsequence};

fn frame(payload: &[u8]) -> Vec<u8> {
    let mut v = (payload.len() as u32).to_le_bytes().to_vec();
    v.extend_from_slice(payload);
    v
}

#[test]
fn dequeue_complete_frame() {
    let buf = frame(&[0xAA, 0xBB]);
    assert_eq!(dequeue_msg(&buf), Some((4, 6)));
}

#[test]
fn dequeue_partial_frame() {
    assert_eq!(dequeue_msg(&[5, 0, 0]), None);
    let mut buf = frame(&[0xAA, 0xBB]);
    buf.pop();
    assert_eq!(dequeue_msg(&buf), None);
}

#[test]
fn dequeue_keeps_trailing_bytes() {
    let mut buf = frame(&[0xAA]);
    buf.extend_from_slice(&[9, 9]);
    assert_eq!(dequeue_msg(&buf), Some((4, 5)));
}

#[test]
fn drain_splits_frames_in_order() {
    let mut buf = Vec::new();
    buf.extend_from_slice(&frame(&[1]));
    buf.extend_from_slice(&frame(&[2, 3]));
    buf.extend_from_slice(&[7, 0, 0]); // partial tail
    let frames = drain_frames(&mut buf);
    assert_eq!(frames, vec![vec![1], vec![2, 3]]);
    assert_eq!(buf, vec![7, 0, 0]);
}

#[test]
fn consume_prefix_keeps_suffix() {
    let mut buf = vec![1u8, 2, 3, 4, 5];
    consume_prefix(&mut buf, 2);
    assert_eq!(buf, vec![3, 4, 5]);
}

#[test]
fn find_subsequence_first_occurrence() {
    assert_eq!(find_subsequence(b"abcabc", b"bc"), Some(1));
    assert_eq!(find_subsequence(b"abc", b"d"), None);
    assert_eq!(find_subsequence(b"header\r\n\r\nbody", b"\r\n\r\n"), Some(6));
    assert_eq!(find_subsequence(b"abc", b""), Some(0));
}
