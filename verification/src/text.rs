//! From the bytes of one read to the text of one log entry.

use vstd::prelude::*;
use vstd::slice::{slice_subrange, slice_to_vec};
use vstd::utf8::{
    char_is_scalar, decode_utf8, decode_utf8_encode_utf8, encode_scalar, encode_utf8,
    encode_utf8_decode_utf8, encode_utf8_valid_utf8, has_width_1_encoding, pop_first_scalar,
    valid_first_scalar, valid_utf8, valid_utf8_concat,
};

verus! {

/// The size in bytes of the buffer that one read fills.
pub const READ_BUFFER_SIZE: usize = 512;

/// The bytes of a read were not valid UTF-8.
#[derive(Clone, Copy, Debug, PartialEq, Eq)]
pub struct DecodeError {}

/// `bytes` without the NUL bytes at its end.
pub open spec fn trimmed(bytes: Seq<u8>) -> Seq<u8>
    decreases bytes.len(),
{
    if bytes.len() > 0 && bytes.last() == 0u8 {
        trimmed(bytes.drop_last())
    } else {
        bytes
    }
}

/// The text that a read of `bytes` stands for: the bytes without the NUL
/// padding at their end, decoded as UTF-8. Bytes that are no valid UTF-8
/// stand for no text.
pub open spec fn decoded(bytes: Seq<u8>) -> Option<Seq<char>> {
    if valid_utf8(trimmed(bytes)) {
        Some(decode_utf8(trimmed(bytes)))
    } else {
        None
    }
}

/// Cuts the NUL padding off the end of a buffer.
pub fn trim_trailing_nul(bytes: &[u8]) -> (kept: &[u8])
    ensures
        kept@ == trimmed(bytes@),
{
    let mut end: usize = bytes.len();
    assert(bytes@.take(end as int) =~= bytes@);
    while end > 0 && bytes[end - 1] == 0
        invariant
            end <= bytes@.len(),
            trimmed(bytes@) == trimmed(bytes@.take(end as int)),
        decreases end,
    {
        assert(bytes@.take(end as int).drop_last() =~= bytes@.take(end - 1));
        end -= 1;
    }
    slice_subrange(bytes, 0, end)
}

/// Decodes the bytes of one read as the text of one log entry.
pub fn decode_chunk(bytes: &[u8]) -> (result: Result<String, DecodeError>)
    ensures
        match result {
            Ok(text) => decoded(bytes@) == Some(text@),
            Err(_) => decoded(bytes@) is None,
        },
{
    let kept = slice_to_vec(trim_trailing_nul(bytes));
    match String::from_utf8(kept) {
        Ok(text) => {
            proof {
                encode_utf8_decode_utf8(text@);
            }
            Ok(text)
        },
        Err(_) => Err(DecodeError {  }),
    }
}

/// `text` without the NUL characters at its end.
pub open spec fn trimmed_text(text: Seq<char>) -> Seq<char>
    decreases text.len(),
{
    if text.len() > 0 && text.last() == '\0' {
        trimmed_text(text.drop_last())
    } else {
        text
    }
}

/// The encoding of a text with one more character is the encoding of the
/// text, followed by the encoding of the character.
proof fn lemma_encoding_of_push(text: Seq<char>, c: char)
    ensures
        encode_utf8(text.push(c)) == encode_utf8(text) + encode_scalar(c as u32),
    decreases text.len(),
{
    if text.len() == 0 {
        assert(text.push(c).drop_first() =~= text);
        assert(encode_utf8(text.push(c)) =~= encode_utf8(text) + encode_scalar(c as u32));
    } else {
        assert(text.push(c).drop_first() =~= text.drop_first().push(c));
        lemma_encoding_of_push(text.drop_first(), c);
        assert(encode_utf8(text.push(c)) =~= encode_utf8(text) + encode_scalar(c as u32));
    }
}

/// The encoding of a character ends in a NUL byte only where the character
/// is NUL, and then it is that one byte.
proof fn lemma_encoding_ends_in_nul(c: char)
    ensures
        encode_scalar(c as u32).len() > 0,
        c == '\0' ==> encode_scalar(c as u32) == seq![0u8],
        c != '\0' ==> encode_scalar(c as u32).last() != 0u8,
{
    let scalar = c as u32;
    char_is_scalar(c);
    if has_width_1_encoding(scalar) {
        assert(((scalar & 0x7F) as u8 == 0u8) == (scalar == 0u32)) by (bit_vector)
            requires
                scalar <= 0x7Fu32,
        ;
        if c == '\0' {
            assert(encode_scalar(scalar) =~= seq![0u8]);
        }
    } else {
        assert(0x80u8 | (scalar & 0x3F) as u8 != 0u8) by (bit_vector);
    }
}

/// To cut the NUL bytes off the end of a text's encoding is to encode the
/// text without the NUL characters at its end.
pub proof fn lemma_trimmed_encoding(text: Seq<char>)
    ensures
        trimmed(encode_utf8(text)) == encode_utf8(trimmed_text(text)),
    decreases text.len(),
{
    if text.len() > 0 {
        let before = text.drop_last();
        let last = text.last();
        assert(text =~= before.push(last));
        lemma_encoding_of_push(before, last);
        lemma_encoding_ends_in_nul(last);
        let bytes = encode_utf8(text);
        if last == '\0' {
            assert(bytes.drop_last() =~= encode_utf8(before));
            lemma_trimmed_encoding(before);
        } else {
            assert(bytes.last() == encode_scalar(last as u32).last());
        }
    }
}

/// NUL bytes at the end of a buffer do not decide whether its bytes are valid
/// UTF-8.
pub proof fn lemma_padding_keeps_validity(bytes: Seq<u8>)
    ensures
        valid_utf8(trimmed(bytes)) == valid_utf8(bytes),
    decreases bytes.len(),
{
    if valid_utf8(bytes) {
        decode_utf8_encode_utf8(bytes);
        lemma_trimmed_encoding(decode_utf8(bytes));
        encode_utf8_valid_utf8(trimmed_text(decode_utf8(bytes)));
    } else if bytes.len() > 0 && bytes.last() == 0u8 {
        let before = bytes.drop_last();
        lemma_padding_keeps_validity(before);
        if valid_utf8(before) {
            let nul = seq![0u8];
            assert(valid_utf8(nul)) by {
                assert(valid_first_scalar(nul));
                assert(pop_first_scalar(nul) =~= Seq::<u8>::empty());
                assert(valid_utf8(pop_first_scalar(nul)));
            }
            valid_utf8_concat(before, nul);
            assert(before + nul =~= bytes);
        }
    }
}

/// It makes no difference whether the padding is cut off before the bytes
/// are decoded or after: the text of a read is the text that all of its
/// bytes decode to, without the NUL characters at its end.
pub proof fn lemma_trim_before_or_after_decoding(bytes: Seq<u8>)
    ensures
        decoded(bytes) == if valid_utf8(bytes) {
            Some(trimmed_text(decode_utf8(bytes)))
        } else {
            None
        },
{
    lemma_padding_keeps_validity(bytes);
    if valid_utf8(bytes) {
        decode_utf8_encode_utf8(bytes);
        lemma_trimmed_encoding(decode_utf8(bytes));
        encode_utf8_decode_utf8(trimmed_text(decode_utf8(bytes)));
    }
}

} // verus!
