use utf8_range::{utf8_validate, Utf8Stream};

fn sample() -> Vec<u8> {
    let mut data = vec![b'x'; 29];
    data.extend_from_slice("€😀é".as_bytes());
    data.extend_from_slice(&[b'y'; 40]);
    data.extend_from_slice("日本語".as_bytes());
    data
}

#[test]
fn stream_empty_is_valid() {
    assert!(Utf8Stream::new().is_valid());
}

#[test]
fn stream_agrees_with_whole_buffer_for_any_chunking() {
    let data = sample();
    for chunk in [1usize, 2, 3, 5, 16, 31, 32, 33, 100] {
        let mut s = Utf8Stream::new();
        for piece in data.chunks(chunk) {
            s.push(piece);
        }
        assert!(s.is_valid(), "chunk size {}", chunk);
        assert_eq!(utf8_validate(&data), Ok(true));
    }
}

#[test]
fn stream_rejects_bad_byte_in_any_chunking() {
    let mut data = sample();
    data[31] = 0x41;
    assert_eq!(utf8_validate(&data), Ok(false));
    for chunk in [1usize, 7, 32, 64] {
        let mut s = Utf8Stream::new();
        for piece in data.chunks(chunk) {
            s.push(piece);
        }
        assert!(!s.is_valid(), "chunk size {}", chunk);
    }
}

#[test]
fn stream_cut_sequence_until_completed() {
    let mut s = Utf8Stream::new();
    s.push(b"ab");
    s.push(&[0xF0, 0x9F]);
    assert!(!s.is_valid());
    s.push(&[0x98, 0x80]);
    assert!(s.is_valid());
    s.push(&[0x80]);
    assert!(!s.is_valid());
}

#[test]
fn stream_short_input_gets_verdict() {
    let mut s = Utf8Stream::new();
    s.push("é".as_bytes());
    assert!(s.is_valid());
    let mut t = Utf8Stream::new();
    t.push(&[0xC0, 0x80]);
    assert!(!t.is_valid());
}
