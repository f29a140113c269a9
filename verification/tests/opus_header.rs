use aoirecord::opus_header::{opus_head, opus_tags, OPUS_HEAD_LEN, VENDOR};

#[test]
fn opus_head_is_nineteen_bytes() {
    assert_eq!(opus_head(0).len(), OPUS_HEAD_LEN);
    assert_eq!(opus_head(u16::MAX).len(), 19);
}

#[test]
fn opus_head_layout() {
    let head = opus_head(312);
    let expected: Vec<u8> = vec![
        b'O', b'p', b'u', b's', b'H', b'e', b'a', b'd', // magic
        1, // version
        2, // channels
        0x38, 0x01, // pre-skip 312, little endian
        0x80, 0xbb, 0x00, 0x00, // 48000 Hz, little endian
        0x00, 0x00, // output gain
        0, // mapping family
    ];
    assert_eq!(head, expected);
}

#[test]
fn opus_head_pre_skip_little_endian() {
    let head = opus_head(0xabcd);
    assert_eq!(&head[10..12], &[0xcd, 0xab]);
}

#[test]
fn opus_tags_layout() {
    let tags = opus_tags(&VENDOR);
    let mut expected: Vec<u8> = b"OpusTags".to_vec();
    expected.extend_from_slice(&9u32.to_le_bytes());
    expected.extend_from_slice(b"aoirecord");
    expected.extend_from_slice(&0u32.to_le_bytes());
    assert_eq!(tags, expected);
    assert_eq!(tags.len(), 25);
}

#[test]
fn opus_tags_empty_vendor() {
    let tags = opus_tags(&[]);
    assert_eq!(tags, b"OpusTags\0\0\0\0\0\0\0\0".to_vec());
}
