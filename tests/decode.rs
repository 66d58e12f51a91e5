use gadget::decode::{decode_text, DecodeError};

fn utf16(s: &str, big: bool) -> Vec<u8> {
    let mut out = if big { vec![0xfe, 0xff] } else { vec![0xff, 0xfe] };
    for u in s.encode_utf16() {
        let b = if big { u.to_be_bytes() } else { u.to_le_bytes() };
        out.extend_from_slice(&b);
    }
    out
}

#[test]
fn big_endian_mark() {
    assert_eq!(decode_text(&utf16("<html>é€𝄞", true)), Ok("<html>é€𝄞".to_string()));
}

#[test]
fn little_endian_mark() {
    assert_eq!(decode_text(&utf16("<html>é€𝄞", false)), Ok("<html>é€𝄞".to_string()));
}

#[test]
fn mark_is_not_part_of_the_text() {
    assert_eq!(decode_text(&[0xfe, 0xff]), Ok(String::new()));
    assert_eq!(decode_text(&[0xff, 0xfe, 0x41, 0x00]), Ok("A".to_string()));
}

#[test]
fn plain_utf8() {
    assert_eq!(decode_text("héllo".as_bytes()), Ok("héllo".to_string()));
    assert_eq!(decode_text(&[]), Ok(String::new()));
    assert_eq!(decode_text(&[0x41]), Ok("A".to_string()));
}

#[test]
fn odd_trailing_byte_fails() {
    let mut b = utf16("ab", true);
    b.push(0x41);
    assert_eq!(decode_text(&b), Err(DecodeError::OddLength));
    let mut b = utf16("ab", false);
    b.push(0x41);
    assert_eq!(decode_text(&b), Err(DecodeError::OddLength));
}

#[test]
fn invalid_utf16_fails() {
    // A lone high surrogate.
    assert_eq!(decode_text(&[0xfe, 0xff, 0xd8, 0x00]), Err(DecodeError::InvalidUtf16));
}

#[test]
fn invalid_utf8_fails() {
    assert_eq!(decode_text(&[0x41, 0xff, 0x42]), Err(DecodeError::InvalidUtf8));
}
