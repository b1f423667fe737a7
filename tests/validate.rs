use utf8_range::{utf8_validate, ValidateError, BLOCK_SIZE};

fn ascii(n: usize) -> Vec<u8> {
    vec![b'A'; n]
}

#[test]
fn ascii_two_blocks_valid() {
    assert_eq!(utf8_validate(&ascii(64)), Ok(true));
}

#[test]
fn four_byte_sequences_fill_one_block() {
    let mut data = Vec::new();
    for _ in 0..8 {
        data.extend_from_slice(&[0xF0, 0x9F, 0x98, 0x80]);
    }
    assert_eq!(data.len(), 32);
    assert_eq!(utf8_validate(&data), Ok(true));
}

#[test]
fn overlong_two_byte_rejected() {
    let mut data = Vec::new();
    for _ in 0..16 {
        data.extend_from_slice(&[0xC0, 0x80]);
    }
    assert_eq!(utf8_validate(&data), Ok(false));
}

fn lead_across_boundary() -> Vec<u8> {
    let mut data = ascii(31);
    data.push(0xF0);
    data.extend_from_slice(&[0x9F, 0x98, 0x80]);
    data.extend_from_slice(&ascii(29));
    data
}

#[test]
fn sequence_across_block_boundary_valid() {
    let data = lead_across_boundary();
    assert_eq!(data.len(), 64);
    assert_eq!(utf8_validate(&data), Ok(true));
}

#[test]
fn bad_continuation_across_block_boundary_rejected() {
    let mut data = lead_across_boundary();
    data[33] = 0x20;
    assert_eq!(utf8_validate(&data), Ok(false));
}

#[test]
fn thirty_one_bytes_too_short() {
    assert_eq!(utf8_validate(&ascii(31)), Err(ValidateError::TooShort));
}

#[test]
fn empty_too_short() {
    assert_eq!(utf8_validate(&[]), Err(ValidateError::TooShort));
}

#[test]
fn exactly_one_block_valid() {
    assert_eq!(BLOCK_SIZE, 32);
    assert_eq!(utf8_validate(&ascii(32)), Ok(true));
}

#[test]
fn boundary_matches_inside_block() {
    let across = lead_across_boundary();
    let mut inside = ascii(10);
    inside.extend_from_slice(&[0xF0, 0x9F, 0x98, 0x80]);
    inside.extend_from_slice(&ascii(50));
    assert_eq!(utf8_validate(&across), utf8_validate(&inside));
    for (k, bad) in [(32usize, 0x41u8), (33, 0x20), (34, 0xC0)] {
        let mut a = across.clone();
        a[k] = bad;
        let mut b = inside.clone();
        b[k - 21] = bad;
        assert_eq!(utf8_validate(&a), Ok(false));
        assert_eq!(utf8_validate(&a), utf8_validate(&b));
    }
}

fn with_ascii_around(seq: &[u8]) -> Vec<u8> {
    let mut data = ascii(20);
    data.extend_from_slice(seq);
    data.extend_from_slice(&ascii(20));
    data
}

#[test]
fn grammar_violations_rejected() {
    let cases: [&[u8]; 12] = [
        &[0x80],
        &[0xBF],
        &[0xC1, 0xBF],
        &[0xC2],
        &[0xE0, 0x9F, 0x80],
        &[0xED, 0xA0, 0x80],
        &[0xF0, 0x8F, 0xBF, 0xBF],
        &[0xF4, 0x90, 0x80, 0x80],
        &[0xF5, 0x80, 0x80, 0x80],
        &[0xFF],
        &[0xE2, 0x82],
        &[0xC2, 0x80, 0x80],
    ];
    for seq in cases {
        assert_eq!(utf8_validate(&with_ascii_around(seq)), Ok(false), "{:?}", seq);
    }
}

#[test]
fn boundary_sequences_accepted() {
    let cases: [&[u8]; 9] = [
        &[0x7F],
        &[0xC2, 0x80],
        &[0xDF, 0xBF],
        &[0xE0, 0xA0, 0x80],
        &[0xED, 0x9F, 0xBF],
        &[0xEE, 0x80, 0x80],
        &[0xF0, 0x90, 0x80, 0x80],
        &[0xF4, 0x8F, 0xBF, 0xBF],
        &[0x00],
    ];
    for seq in cases {
        assert_eq!(utf8_validate(&with_ascii_around(seq)), Ok(true), "{:?}", seq);
    }
}

#[test]
fn truncated_sequence_at_end_rejected() {
    let mut data = ascii(30);
    data.extend_from_slice(&[0xE2, 0x82]);
    assert_eq!(data.len(), 32);
    assert_eq!(utf8_validate(&data), Ok(false));
    let mut data = ascii(63);
    data.push(0xC3);
    assert_eq!(utf8_validate(&data), Ok(false));
}

#[test]
fn tail_past_last_block_is_checked() {
    let mut data = ascii(40);
    assert_eq!(utf8_validate(&data), Ok(true));
    data[38] = 0xFF;
    assert_eq!(utf8_validate(&data), Ok(false));
    let mut data = ascii(32);
    data.extend_from_slice("é€😀".as_bytes());
    assert_eq!(utf8_validate(&data), Ok(true));
    data.pop();
    assert_eq!(utf8_validate(&data), Ok(false));
}

#[test]
fn repeated_calls_agree() {
    let data = lead_across_boundary();
    let first = utf8_validate(&data);
    for _ in 0..4 {
        assert_eq!(utf8_validate(&data), first);
    }
}

#[test]
fn multilingual_text_valid() {
    let text = "Grüße, 世界! Привет мир — καλημέρα κόσμε 🌍🚀 ok";
    assert!(text.len() >= 32);
    assert_eq!(utf8_validate(text.as_bytes()), Ok(true));
}

fn next_random(seed: &mut u64) -> u64 {
    *seed = seed.wrapping_mul(6364136223846793005).wrapping_add(1442695040888963407);
    *seed >> 33
}

#[test]
fn agrees_with_std_on_generated_inputs() {
    let pieces: [&[u8]; 14] = [
        b"a", b"z", &[0xC3, 0xA9], &[0xE2, 0x82, 0xAC], &[0xF0, 0x9F, 0x98, 0x80],
        &[0xE0], &[0xED], &[0xF0], &[0xF4], &[0x80], &[0x9F], &[0xA0], &[0xBF], &[0xC0],
    ];
    let mut seed: u64 = 7;
    for _ in 0..3000 {
        let mut data = Vec::new();
        let target = 32 + (next_random(&mut seed) % 70) as usize;
        while data.len() < target {
            let k = (next_random(&mut seed) % 40) as usize;
            if k < pieces.len() {
                data.extend_from_slice(pieces[k]);
            } else if k < 36 {
                data.push(b' ');
            } else {
                data.push((next_random(&mut seed) % 256) as u8);
            }
        }
        let expected = std::str::from_utf8(&data).is_ok();
        assert_eq!(utf8_validate(&data), Ok(expected), "{:02x?}", data);
    }
}
