use session_deltas::deltas::Delta;
use session_deltas::error::EngineError;
use session_deltas::log_format::{decode_log, encode_log};
use session_deltas::operations::Operation;
use session_deltas::wire::{
    put_text, put_u128, put_u32, put_u64, take_text, take_u128, take_u32, take_u64,
};

fn sample_log() -> Vec<Delta> {
    vec![
        Delta {
            operations: vec![
                Operation::Insert((0, "Hello, world!".to_string())),
                Operation::Delete((5, 2)),
            ],
            timestamp_ms: 1_700_000_000_123,
        },
        Delta { operations: vec![], timestamp_ms: 0 },
        Delta {
            operations: vec![Operation::Insert((u32::MAX, "héllo 日本語 🙂".to_string()))],
            timestamp_ms: u128::MAX,
        },
    ]
}

fn small_log_bytes() -> Vec<u8> {
    let mut bytes = vec![0x44, 0x4c, 0x54, 0x31];
    bytes.extend_from_slice(&[1, 0, 0, 0, 0, 0, 0, 0]);
    bytes.extend_from_slice(&[7, 0, 0, 0, 0, 0, 0, 0, 0, 0, 0, 0, 0, 0, 0, 0]);
    bytes.extend_from_slice(&[2, 0, 0, 0, 0, 0, 0, 0]);
    bytes.extend_from_slice(&[1, 3, 0, 0, 0]);
    bytes.extend_from_slice(&[2, 0, 0, 0, 0, 0, 0, 0, 0x48, 0x69]);
    bytes.extend_from_slice(&[2, 1, 1, 0, 0, 9, 0, 0, 0]);
    bytes
}

fn small_log() -> Vec<Delta> {
    vec![Delta {
        operations: vec![Operation::Insert((3, "Hi".to_string())), Operation::Delete((257, 9))],
        timestamp_ms: 7,
    }]
}

#[test]
fn encode_log_gives_the_stored_form() {
    assert_eq!(encode_log(&small_log()), small_log_bytes());
}

#[test]
fn encode_empty_log() {
    assert_eq!(encode_log(&vec![]), vec![0x44, 0x4c, 0x54, 0x31, 0, 0, 0, 0, 0, 0, 0, 0]);
}

#[test]
fn decode_log_reads_the_stored_form() {
    assert_eq!(decode_log(&small_log_bytes()), Ok(small_log()));
}

#[test]
fn decode_inverts_encode() {
    let log = sample_log();
    assert_eq!(decode_log(&encode_log(&log)), Ok(log));
    assert_eq!(decode_log(&encode_log(&vec![])), Ok(vec![]));
}

#[test]
fn encode_inverts_decode() {
    let bytes = small_log_bytes();
    assert_eq!(encode_log(&decode_log(&bytes).unwrap()), bytes);
}

#[test]
fn text_outside_ascii_survives() {
    let log = vec![Delta {
        operations: vec![Operation::Insert((0, "ß→𝄞\u{0}\u{10FFFF}".to_string()))],
        timestamp_ms: 1,
    }];
    let decoded = decode_log(&encode_log(&log)).unwrap();
    assert_eq!(decoded, log);
    assert_ne!(
        decoded,
        vec![Delta { operations: vec![Operation::Insert((0, String::new()))], timestamp_ms: 1 }]
    );
}

#[test]
fn empty_bytes_are_corrupt_not_an_empty_log() {
    assert_eq!(decode_log(&[]), Err(EngineError::CorruptLog));
}

#[test]
fn foreign_bytes_are_corrupt() {
    assert_eq!(decode_log("invalid".as_bytes()), Err(EngineError::CorruptLog));
    assert_eq!(decode_log("[]".as_bytes()), Err(EngineError::CorruptLog));
    assert_eq!(decode_log(&[0x53, 0x45, 0x53, 0x31, 0, 0, 0, 0, 0, 0, 0, 0]), Err(
        EngineError::CorruptLog
    ));
}

#[test]
fn every_truncation_is_corrupt() {
    let bytes = encode_log(&sample_log());
    for cut in 0..bytes.len() {
        assert_eq!(decode_log(&bytes[..cut]), Err(EngineError::CorruptLog), "cut at {}", cut);
    }
}

#[test]
fn trailing_bytes_are_corrupt() {
    let mut bytes = encode_log(&sample_log());
    bytes.push(0);
    assert_eq!(decode_log(&bytes), Err(EngineError::CorruptLog));
}

#[test]
fn unknown_operation_tag_is_corrupt() {
    let mut bytes = small_log_bytes();
    assert_eq!(bytes[36], 1);
    bytes[36] = 3;
    assert_eq!(decode_log(&bytes), Err(EngineError::CorruptLog));
    bytes[36] = 0;
    assert_eq!(decode_log(&bytes), Err(EngineError::CorruptLog));
}

#[test]
fn ill_formed_text_is_corrupt() {
    let mut bytes = small_log_bytes();
    assert_eq!(bytes[49], 0x48);
    bytes[49] = 0xff;
    assert_eq!(decode_log(&bytes), Err(EngineError::CorruptLog));
    bytes[49] = 0xc3;
    assert_eq!(decode_log(&bytes), Err(EngineError::CorruptLog));
}

#[test]
fn overlong_counts_are_corrupt() {
    let mut bytes = small_log_bytes();
    bytes[4] = 2;
    assert_eq!(decode_log(&bytes), Err(EngineError::CorruptLog));
    let mut bytes = small_log_bytes();
    bytes[11] = 0xff;
    assert_eq!(decode_log(&bytes), Err(EngineError::CorruptLog));
    let mut bytes = small_log_bytes();
    bytes[48] = 0xff;
    assert_eq!(decode_log(&bytes), Err(EngineError::CorruptLog));
}

#[test]
fn words_are_stored_lowest_byte_first() {
    let mut out = vec![9u8];
    put_u32(&mut out, 0x0403_0201);
    assert_eq!(out, vec![9, 1, 2, 3, 4]);
    let mut out = Vec::new();
    put_u64(&mut out, 0x0807_0605_0403_0201);
    assert_eq!(out, vec![1, 2, 3, 4, 5, 6, 7, 8]);
    let mut out = Vec::new();
    put_u128(&mut out, 0x100f_0e0d_0c0b_0a09_0807_0605_0403_0201);
    assert_eq!(out, vec![1, 2, 3, 4, 5, 6, 7, 8, 9, 10, 11, 12, 13, 14, 15, 16]);
}

#[test]
fn words_are_read_where_they_stand() {
    let bytes: Vec<u8> = (0u8..40).collect();
    assert_eq!(take_u32(&bytes, 1), Some((0x0403_0201, 5)));
    assert_eq!(take_u64(&bytes, 1), Some((0x0807_0605_0403_0201, 9)));
    assert_eq!(take_u128(&bytes, 1), Some((0x100f_0e0d_0c0b_0a09_0807_0605_0403_0201, 17)));
    assert_eq!(take_u32(&bytes, 36), Some((0x2726_2524, 40)));
    assert_eq!(take_u32(&bytes, 37), None);
    assert_eq!(take_u64(&bytes, 33), None);
    assert_eq!(take_u128(&bytes, 25), None);
    assert_eq!(take_u32(&bytes, 40), None);
    assert_eq!(take_u32(&bytes, 41), None);
    assert_eq!(take_u64(&bytes, usize::MAX), None);
    assert_eq!(take_u128(&bytes, 100), None);
}

#[test]
fn text_is_stored_behind_its_length_in_bytes() {
    let mut out = Vec::new();
    put_text(&mut out, "hé");
    assert_eq!(out, vec![3, 0, 0, 0, 0, 0, 0, 0, 0x68, 0xc3, 0xa9]);
    assert_eq!(take_text(&out, 0), Some(("hé".to_string(), 11)));
    let mut out = Vec::new();
    put_text(&mut out, "");
    assert_eq!(out, vec![0, 0, 0, 0, 0, 0, 0, 0]);
    assert_eq!(take_text(&out, 0), Some((String::new(), 8)));
}

#[test]
fn text_that_is_cut_short_is_not_read() {
    assert_eq!(take_text(&[3, 0, 0, 0, 0, 0, 0, 0, 0x68, 0xc3], 0), None);
    assert_eq!(take_text(&[2, 0, 0, 0, 0, 0, 0, 0, 0x68, 0xc3], 0), None);
    assert_eq!(take_text(&[1, 0, 0, 0, 0, 0, 0, 0, 0x68, 0xc3], 0), Some(("h".to_string(), 9)));
    assert_eq!(take_text(&[0xff, 0xff, 0xff, 0xff, 0xff, 0xff, 0xff, 0xff, 0x68], 0), None);
    assert_eq!(take_text(&[1, 0, 0], 0), None);
    assert_eq!(take_text(&[1, 0, 0], 4), None);
}
