use fssota::frame::{decode, encode, encode_text, length_prefix, prefix_value, HEADER_LEN};

#[test]
fn header_is_eight_bytes_big_endian() {
    assert_eq!(HEADER_LEN, 8);
    assert_eq!(length_prefix(0), vec![0; 8]);
    assert_eq!(length_prefix(2), vec![0, 0, 0, 0, 0, 0, 0, 2]);
    assert_eq!(length_prefix(258), vec![0, 0, 0, 0, 0, 0, 1, 2]);
    assert_eq!(length_prefix(0x0102_0304_0506_0708), vec![1, 2, 3, 4, 5, 6, 7, 8]);
    assert_eq!(length_prefix(u64::MAX), vec![255; 8]);
    for len in [0u64, 1, 255, 256, 65_535, 65_536, 1 << 40, u64::MAX - 1, u64::MAX] {
        assert_eq!(length_prefix(len), len.to_be_bytes().to_vec());
    }
}

#[test]
fn header_is_read_back() {
    assert_eq!(prefix_value(&[0; 8]), 0);
    assert_eq!(prefix_value(&[0, 0, 0, 0, 0, 0, 1, 2]), 258);
    assert_eq!(prefix_value(&[1, 2, 3, 4, 5, 6, 7, 8]), 0x0102_0304_0506_0708);
    assert_eq!(prefix_value(&[255; 8]), u64::MAX);
    for len in [0u64, 1, 255, 256, 65_535, 65_536, 1 << 40, u64::MAX] {
        let mut header = [0u8; 8];
        header.copy_from_slice(&length_prefix(len));
        assert_eq!(prefix_value(&header), len);
    }
}

#[test]
fn frame_is_prefix_then_payload() {
    assert_eq!(encode(b"hi"), vec![0, 0, 0, 0, 0, 0, 0, 2, b'h', b'i']);
    assert_eq!(encode(b""), vec![0; 8]);
    assert_eq!(encode_text("!MOVE"), vec![0, 0, 0, 0, 0, 0, 0, 5, b'!', b'M', b'O', b'V', b'E']);
    assert_eq!(encode_text("\u{e9}"), vec![0, 0, 0, 0, 0, 0, 0, 2, 0xc3, 0xa9]);
}

#[test]
fn decoding_gives_the_payload_back() {
    for len in [0usize, 1, 2, 7, 8, 9, 255, 256, 257, 70_000] {
        let payload: Vec<u8> = (0..len).map(|i| (i * 7 + 3) as u8).collect();
        let frame = encode(&payload);
        assert_eq!(frame.len(), len + 8);
        assert_eq!(decode(&frame), Some((payload, len + 8)));
    }
}

#[test]
fn decoding_takes_the_first_frame_only() {
    let mut bytes = encode(b"one");
    bytes.extend_from_slice(&encode(b"second"));
    let (first, used) = decode(&bytes).unwrap();
    assert_eq!(first, b"one");
    assert_eq!(used, 11);
    let (second, used) = decode(&bytes[used..]).unwrap();
    assert_eq!(second, b"second");
    assert_eq!(used, 14);
}

#[test]
fn an_incomplete_frame_is_not_decoded() {
    let frame = encode(b"hello");
    for cut in 0..frame.len() {
        assert_eq!(decode(&frame[..cut]), None);
    }
    assert_eq!(decode(&[255; 8]), None);
    assert_eq!(decode(&[0, 0, 0, 0, 0, 0, 0, 1]), None);
    assert_eq!(decode(&[0; 8]), Some((Vec::new(), 8)));
}
