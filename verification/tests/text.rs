use chat_host::text::{decode_chunk, trim_trailing_nul, DecodeError, READ_BUFFER_SIZE};

#[test]
fn buffer_size_is_512() {
    assert_eq!(READ_BUFFER_SIZE, 512);
}

#[test]
fn trim_cuts_trailing_nul_bytes() {
    assert_eq!(trim_trailing_nul(b"hi\0\0\0"), b"hi");
    assert_eq!(trim_trailing_nul(b"hi"), b"hi");
    assert_eq!(trim_trailing_nul(b""), b"");
    assert_eq!(trim_trailing_nul(b"\0\0"), b"");
}

#[test]
fn trim_keeps_nul_bytes_before_the_end() {
    assert_eq!(trim_trailing_nul(b"\0a\0b\0"), b"\0a\0b");
}

#[test]
fn decode_of_a_padded_buffer() {
    let mut buffer = [0u8; 512];
    buffer[0] = b'h';
    buffer[1] = b'i';
    assert_eq!(decode_chunk(&buffer), Ok("hi".to_string()));
}

#[test]
fn decode_of_exact_bytes() {
    assert_eq!(decode_chunk(b"hello"), Ok("hello".to_string()));
    assert_eq!(decode_chunk(b"two\nlines"), Ok("two\nlines".to_string()));
}

#[test]
fn decode_of_text_that_is_not_ascii() {
    assert_eq!(decode_chunk("grüße, 世界 🦀".as_bytes()), Ok("grüße, 世界 🦀".to_string()));
    assert_eq!(decode_chunk(b"\xc3\xa9\0\0"), Ok("é".to_string()));
}

#[test]
fn decode_of_nothing_but_padding_is_the_empty_text() {
    assert_eq!(decode_chunk(b"\0\0\0\0"), Ok(String::new()));
    assert_eq!(decode_chunk(b""), Ok(String::new()));
}

#[test]
fn decode_keeps_inner_nul() {
    assert_eq!(decode_chunk(b"a\0b\0\0"), Ok("a\0b".to_string()));
}

#[test]
fn decode_rejects_invalid_utf8() {
    assert_eq!(decode_chunk(&[0xff, 0xfe]), Err(DecodeError {}));
    assert_eq!(decode_chunk(&[b'o', b'k', 0x80]), Err(DecodeError {}));
    assert_eq!(decode_chunk(&[0xc3]), Err(DecodeError {}));
    assert_eq!(decode_chunk(&[0xc3, 0, 0]), Err(DecodeError {}));
    assert_eq!(decode_chunk(&[0xed, 0xa0, 0x80]), Err(DecodeError {}));
    assert_eq!(decode_chunk(&[0xc0, 0xaf]), Err(DecodeError {}));
}

#[test]
fn decode_agrees_with_decoding_first_and_trimming_after() {
    let chunks: [&[u8]; 6] =
        [b"hi\0\0", b"\0", b"a\0b\0", "é\0".as_bytes(), b"plain", b"\0\0x"];
    for chunk in chunks {
        let whole = String::from_utf8(chunk.to_vec()).unwrap();
        let expected = whole.trim_end_matches(char::from(0)).to_string();
        assert_eq!(decode_chunk(chunk), Ok(expected));
    }
}
