use dnser::{frame, frame_body_len, read_frame};

#[test]
fn roundtrip_short_message() {
    let stream = frame(b"hi").unwrap();
    let (got, _) = read_frame(&stream, 0).unwrap();
    assert_eq!(&got[..], b"hi");
}

#[test]
fn roundtrip_two_messages_back_to_back() {
    let mut stream = frame(b"one").unwrap();
    stream.extend_from_slice(&frame(b"two").unwrap());
    let (first, next) = read_frame(&stream, 0).unwrap();
    assert_eq!(&first[..], b"one");
    let (second, end) = read_frame(&stream, next).unwrap();
    assert_eq!(&second[..], b"two");
    assert_eq!(end, stream.len());
}

#[test]
fn clean_eof_returns_none() {
    let stream: Vec<u8> = Vec::new();
    assert!(read_frame(&stream, 0).is_none());
}

#[test]
fn zero_length_frame_returns_none() {
    let stream = vec![0u8, 0u8];
    assert!(read_frame(&stream, 0).is_none());
    assert_eq!(frame_body_len([0, 0]), None);
}

#[test]
fn half_read_length_prefix_is_eof() {
    let stream = vec![0u8];
    assert!(read_frame(&stream, 0).is_none());
}

#[test]
fn truncated_body_returns_none() {
    let mut stream = 10u16.to_be_bytes().to_vec();
    stream.extend_from_slice(b"short");
    assert!(read_frame(&stream, 0).is_none());
}

#[test]
fn frame_prefix_is_big_endian_length() {
    let body = vec![7u8; 300];
    let framed = frame(&body).unwrap();
    assert_eq!(&framed[..2], &[1u8, 44u8]);
    assert_eq!(framed.len(), 302);
    assert_eq!(frame_body_len([1, 44]), Some(300));
}

#[test]
fn oversized_message_cannot_be_framed() {
    let body = vec![0u8; 65536];
    assert!(frame(&body).is_err());
    let max = vec![0u8; 65535];
    let framed = frame(&max).unwrap();
    assert_eq!(&framed[..2], &[0xFF, 0xFF]);
}
