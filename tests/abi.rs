use uniswap_v3_state::abi::{abi_string, word_address, word_i32, word_text, word_u64};

fn word(last: &[u8], fill: u8) -> Vec<u8> {
    let mut w = vec![fill; 32 - last.len()];
    w.extend_from_slice(last);
    w
}

#[test]
fn words_as_numbers() {
    let mut raw = word(&[0x12], 0);
    raw.extend(word(&[0x01, 0x00, 0x00], 0));
    assert_eq!(word_u64(&raw, 0), Some(0x12));
    assert_eq!(word_u64(&raw, 1), Some(65536));
    assert_eq!(word_text(&raw, 1), Some("65536".to_string()));
    assert_eq!(word_u64(&raw, 2), None);
    assert_eq!(word_text(&raw, 2), None);
}

#[test]
fn wide_word_is_text_but_not_u64() {
    let raw = vec![0xff; 32];
    assert_eq!(word_u64(&raw, 0), None);
    assert_eq!(
        word_text(&raw, 0),
        Some("115792089237316195423570985008687907853269984665640564039457584007913129639935".to_string())
    );
}

#[test]
fn signed_words() {
    assert_eq!(word_i32(&word(&[0xff, 0xff, 0xff, 0xf6], 0xff), 0), Some(-10));
    assert_eq!(word_i32(&word(&[0x00, 0x0d, 0x89, 0xe8], 0), 0), Some(887272));
    assert_eq!(word_i32(&word(&[0x80, 0, 0, 0], 0), 0), None);
    assert_eq!(word_i32(&word(&[0x01], 0xff), 0), Some(-255));
    assert_eq!(word_i32(&word(&[0x00, 0x00, 0x00, 0x01], 0xff), 0), None);
}

#[test]
fn address_word() {
    let address = vec![0xab; 20];
    let raw = word(&address, 0);
    assert_eq!(word_address(&raw, 0), Some(address));
    assert_eq!(word_address(&raw[..31].to_vec(), 0), None);
}

#[test]
fn abi_string_answer() {
    let mut raw = word(&[0x20], 0);
    raw.extend(word(&[4], 0));
    let mut text = b"WETH".to_vec();
    text.extend(vec![0; 28]);
    raw.extend(text);
    assert_eq!(abi_string(&raw), Some("WETH".to_string()));
    assert_eq!(abi_string(&raw[..60].to_vec()), None);
    assert_eq!(abi_string(&word(&[0x21], 0)), None);
}
