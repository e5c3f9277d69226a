use synacor::codec::{le_bytes_from_words, words_from_le_bytes};

#[test]
fn decode_little_endian_pairs() {
    assert_eq!(words_from_le_bytes(&[0x34, 0x12, 0xff, 0x7f]), Some(vec![0x1234, 0x7fff]));
    assert_eq!(words_from_le_bytes(&[]), Some(vec![]));
}

#[test]
fn decode_odd_length_fails() {
    assert_eq!(words_from_le_bytes(&[1, 2, 3]), None);
}

#[test]
fn encode_then_decode() {
    let words = vec![0u16, 1, 255, 256, 32768, 65535];
    let bytes = le_bytes_from_words(&words);
    assert_eq!(bytes, vec![0, 0, 1, 0, 255, 0, 0, 1, 0, 128, 255, 255]);
    assert_eq!(words_from_le_bytes(&bytes), Some(words));
}
