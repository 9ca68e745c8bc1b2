use vstd::prelude::*;
use vstd::utf8::*;

verus! {

/// The characters of an all-ASCII byte sequence, one per byte.
pub open spec fn ascii_chars(b: Seq<u8>) -> Seq<char> {
    Seq::new(b.len(), |i: int| b[i] as char)
}

/// Every byte is below 128.
pub open spec fn all_ascii(b: Seq<u8>) -> bool {
    forall|i: int| 0 <= i < b.len() ==> #[trigger] b[i] < 128
}

/// Relies on String::from_utf8: it succeeds exactly when the bytes are valid
/// UTF-8, and the string then holds the characters that they encode.
#[verifier::external_body]
pub(crate) fn string_from_utf8(bytes: Vec<u8>) -> (r: Option<String>)
    ensures
        r is Some <==> valid_utf8(bytes@),
        r matches Some(s) ==> s@ == decode_utf8(bytes@),
{
    String::from_utf8(bytes).ok()
}

/// ASCII bytes are valid UTF-8 and decode to one character per byte.
pub proof fn lemma_ascii_is_utf8(b: Seq<u8>)
    requires
        all_ascii(b),
    ensures
        valid_utf8(b),
        decode_utf8(b) == ascii_chars(b),
{
    let chars = ascii_chars(b);
    assert forall|i: int| 0 <= i < chars.len() implies '\0' <= #[trigger] chars[i] <= '\u{7f}' by {
        let x = b[i];
        assert(x < 128);
    }
    assert(is_ascii_chars(chars));
    is_ascii_chars_encode_utf8(chars);
    let e = encode_utf8(chars);
    assert forall|i: int| 0 <= i < b.len() implies #[trigger] e[i] == b[i] by {
        assert(chars[i] as u8 == e[i]);
        let x = b[i];
        assert(x < 128);
    }
    assert(e =~= b);
    encode_utf8_valid_utf8(chars);
    encode_utf8_decode_utf8(chars);
}

} // verus!
