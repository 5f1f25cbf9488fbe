use net226::frame::{decode_all, encode, extra, Frame, FrameIterator};

#[test]
fn encode_join_exact_bytes() {
    let f = Frame::Join { uuid: 0x00112233445566778899AABBCCDDEEFF, port: 0xABCD, flags: 7 };
    let bytes = encode(&f);
    let expected: Vec<u8> = vec![
        0x00, 0x00, // tag
        0x00, 0x11, 0x22, 0x33, 0x44, 0x55, 0x66, 0x77, 0x88, 0x99, 0xAA, 0xBB, 0xCC, 0xDD, 0xEE,
        0xFF, // identity
        0xAB, 0xCD, // port
        0x07, // flags
        0x00, // padding
    ];
    assert_eq!(bytes, expected);
}

#[test]
fn encode_heartbeat_exact_bytes() {
    let f = Frame::Heartbeat { uuid: 1, port: 2, flags: 3 };
    let bytes = encode(&f);
    let expected: Vec<u8> = vec![
        0x00, 0x01, // tag
        0, 0, 0, 0, 0, 0, 0, 0, 0, 0, 0, 0, 0, 0, 0, 1, // identity
        0x00, 0x02, // port
        0x03, // flags
        0x00, // padding
    ];
    assert_eq!(bytes, expected);
}

#[test]
fn encode_leave_exact_bytes() {
    let f = Frame::Leave { uuid: u128::MAX, flags: 0 };
    let bytes = encode(&f);
    let expected: Vec<u8> = vec![
        0x00, 0x02, // tag
        0xFF, 0xFF, 0xFF, 0xFF, 0xFF, 0xFF, 0xFF, 0xFF, 0xFF, 0xFF, 0xFF, 0xFF, 0xFF, 0xFF, 0xFF,
        0xFF, // identity
        0x00, // flags
        0x00, // padding
    ];
    assert_eq!(bytes, expected);
}

#[test]
fn round_trip_join() {
    let f = Frame::Join { uuid: 0xDEADBEEF_00000000_12345678_9ABCDEF0, port: 54321, flags: 1 };
    let decoded = decode_all(encode(&f).as_slice());
    assert_eq!(decoded, vec![f]);
}

#[test]
fn round_trip_heartbeat() {
    let f = Frame::Heartbeat { uuid: 0, port: 0, flags: 255 };
    let decoded = decode_all(encode(&f).as_slice());
    assert_eq!(decoded, vec![f]);
}

#[test]
fn round_trip_leave() {
    let f = Frame::Leave { uuid: 42, flags: 0b00000001 };
    let decoded = decode_all(encode(&f).as_slice());
    assert_eq!(decoded, vec![f]);
}

#[test]
fn concatenation_round_trip() {
    let frames = vec![
        Frame::Join { uuid: 10, port: 1000, flags: 1 },
        Frame::Heartbeat { uuid: 10, port: 1000, flags: 1 },
        Frame::Leave { uuid: 11, flags: 0 },
        Frame::Heartbeat { uuid: u128::MAX, port: u16::MAX, flags: u8::MAX },
    ];
    let mut bytes: Vec<u8> = Vec::new();
    for f in &frames {
        bytes.extend_from_slice(encode(f).as_slice());
    }
    assert_eq!(decode_all(bytes.as_slice()), frames);
}

#[test]
fn truncation_drops_only_the_last_frame() {
    let first = Frame::Join { uuid: 7, port: 70, flags: 1 };
    let last = Frame::Leave { uuid: 8, flags: 1 };
    let mut bytes = encode(&first);
    bytes.extend_from_slice(encode(&last).as_slice());
    // removing 1..=20 trailing bytes eats exactly the Leave frame
    for cut in 1..=20 {
        let shortened = &bytes[..bytes.len() - cut];
        assert_eq!(decode_all(shortened), vec![first]);
    }
}

#[test]
fn truncated_single_frame_decodes_to_nothing() {
    let f = Frame::Heartbeat { uuid: 99, port: 9, flags: 0 };
    let bytes = encode(&f);
    assert_eq!(bytes.len(), 22);
    for cut in 1..=21 {
        let shortened = &bytes[..bytes.len() - cut];
        assert_eq!(decode_all(shortened), vec![]);
    }
}

#[test]
fn unknown_tag_yields_empty_sequence() {
    // tag 3 followed by a full valid Join frame: nothing is decoded
    let mut bytes: Vec<u8> = vec![0x00, 0x03];
    bytes.extend_from_slice(encode(&Frame::Join { uuid: 1, port: 2, flags: 3 }).as_slice());
    assert_eq!(decode_all(bytes.as_slice()), vec![]);

    let bytes2: [u8; 4] = [0xFF, 0xFF, 0x00, 0x00];
    assert_eq!(decode_all(&bytes2), vec![]);
}

#[test]
fn unknown_tag_mid_stream_ends_the_sequence() {
    let good = Frame::Leave { uuid: 5, flags: 1 };
    let mut bytes = encode(&good);
    bytes.extend_from_slice(&[0x12, 0x34]);
    bytes.extend_from_slice(encode(&good).as_slice());
    // the valid prefix is reported; everything after the bad tag is ignored
    assert_eq!(decode_all(bytes.as_slice()), vec![good]);
}

#[test]
fn empty_and_short_buffers_decode_to_nothing() {
    assert_eq!(decode_all(&[]), vec![]);
    assert_eq!(decode_all(&[0x00]), vec![]);
}

#[test]
fn iterator_yields_frames_then_none() {
    let f = Frame::Join { uuid: 3, port: 4, flags: 5 };
    let bytes = encode(&f);
    let mut it = FrameIterator::new(bytes.as_slice());
    assert_eq!(it.next(), Some(f));
    assert_eq!(it.next(), None);
    assert_eq!(it.next(), None);
}

#[test]
fn extra_indicator_parity() {
    // flags 0b00000001 renders the "extra" indicator false, flags 0 true
    assert!(!extra(0b00000001));
    assert!(extra(0b00000000));
    assert!(!extra(3));
    assert!(extra(2));
}
