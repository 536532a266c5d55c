use camserver::multipart::{decimal_bytes, prepare_http_bytes, STREAM_CONTENT_TYPE};

#[test]
fn decimal_digits() {
    assert_eq!(decimal_bytes(0), b"0".to_vec());
    assert_eq!(decimal_bytes(7), b"7".to_vec());
    assert_eq!(decimal_bytes(1200), b"1200".to_vec());
    assert_eq!(decimal_bytes(18446744073709551615), b"18446744073709551615".to_vec());
}

#[test]
fn frame_part_layout() {
    let part = prepare_http_bytes(&[1, 2, 3]);
    let mut expected = b"\r\n--123456789000000000000987654321\r\nContent-Type: image/jpeg\r\nContent-Length: 3\r\n\r\n".to_vec();
    expected.extend_from_slice(&[1, 2, 3]);
    assert_eq!(part, expected);
}

#[test]
fn empty_frame_part() {
    let part = prepare_http_bytes(&[]);
    assert!(part.ends_with(b"Content-Length: 0\r\n\r\n"));
    assert_eq!(STREAM_CONTENT_TYPE, "multipart/x-mixed-replace;boundary=123456789000000000000987654321");
}
