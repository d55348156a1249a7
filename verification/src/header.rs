use vstd::prelude::*;
use vstd::utf8::{decode_utf8, encode_utf8, encode_utf8_decode_utf8, is_ascii_chars, is_ascii_chars_encode_utf8, valid_utf8, encode_utf8_valid_utf8};

verus! {

/// A byte that an HTTP header value may hold when it is read as text: a
/// visible ASCII character, a space or a tab.
pub open spec fn is_visible_ascii(b: u8) -> bool {
    (32 <= b && b < 127) || b == 9
}

/// The text of a header value: its bytes as characters when every byte is
/// visible ASCII (what `HeaderValue::to_str` accepts), otherwise none.
pub open spec fn header_text(bytes: Seq<u8>) -> Option<Seq<char>> {
    if forall|i: int| 0 <= i < bytes.len() ==> is_visible_ascii(#[trigger] bytes[i]) {
        Some(Seq::new(bytes.len(), |i: int| bytes[i] as char))
    } else {
        None
    }
}

/// The view of an optional string.
pub open spec fn opt_view(o: Option<String>) -> Option<Seq<char>> {
    match o {
        Some(s) => Some(s@),
        None => None,
    }
}

/// Calls `String::from_utf8`. Claimed, as its documentation states: it
/// succeeds exactly on valid UTF-8, and then holds the decoded characters.
#[verifier::external_body]
fn string_from_utf8(bytes: Vec<u8>) -> (r: Option<String>)
    ensures
        r is Some <==> valid_utf8(bytes@),
        r matches Some(s) ==> s@ == decode_utf8(bytes@),
{
    match String::from_utf8(bytes) {
        Ok(s) => Some(s),
        Err(_) => None,
    }
}

/// Reads a header value as text, as `HeaderValue::to_str` does: only values
/// made of visible ASCII characters and tabs are text.
pub fn header_value_str(bytes: &[u8]) -> (r: Option<String>)
    ensures
        opt_view(r) == header_text(bytes@),
{
    let mut i: usize = 0;
    while i < bytes.len()
        invariant
            i <= bytes@.len(),
            forall|j: int| 0 <= j < i ==> is_visible_ascii(#[trigger] bytes@[j]),
        decreases bytes@.len() - i,
    {
        let b = bytes[i];
        if !((32 <= b && b < 127) || b == 9) {
            assert(!is_visible_ascii(bytes@[i as int]));
            return None;
        }
        i = i + 1;
    }
    let ghost chars = Seq::new(bytes@.len(), |k: int| bytes@[k] as char);
    proof {
        assert(is_ascii_chars(chars));
        is_ascii_chars_encode_utf8(chars);
        assert(encode_utf8(chars) =~= bytes@);
        encode_utf8_valid_utf8(chars);
        encode_utf8_decode_utf8(chars);
    }
    let v = vstd::slice::slice_to_vec(bytes);
    let r = string_from_utf8(v);
    r
}

} // verus!
