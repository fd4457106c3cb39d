//! ASCII text: how a run of bytes below 128 is read as characters and back.

use vstd::prelude::*;
use vstd::string::*;
use vstd::utf8::is_ascii_chars;

verus! {

pub open spec fn is_ascii_bytes(b: Seq<u8>) -> bool {
    forall|i: int| 0 <= i < b.len() ==> #[trigger] b[i] < 128
}

/// The characters of ASCII bytes, one for each byte.
pub open spec fn ascii_text(b: Seq<u8>) -> Seq<char> {
    b.map_values(|x: u8| x as char)
}

/// The bytes of ASCII characters, one for each character.
pub open spec fn ascii_bytes(s: Seq<char>) -> Seq<u8> {
    s.map_values(|c: char| c as u8)
}

pub proof fn lemma_ascii_text_round_trip(b: Seq<u8>)
    requires
        is_ascii_bytes(b),
    ensures
        is_ascii_chars(ascii_text(b)),
        ascii_bytes(ascii_text(b)) =~= b,
{
    assert forall|i: int| 0 <= i < b.len() implies ascii_bytes(ascii_text(b))[i] == b[i] by {
        let c = b[i];
        assert(c < 128);
        assert((c as char) as u8 == c);
    }
    assert forall|i: int| 0 <= i < ascii_text(b).len() implies '\0' <= #[trigger] ascii_text(b)[i]
        <= '\u{7f}' by {
        assert(b[i] < 128);
    }
}

/// Relies on `String::from_utf8`: ASCII bytes are valid UTF-8, so it succeeds and
/// each byte becomes the character of the same value.
#[verifier::external_body]
pub(crate) fn ascii_string(b: Vec<u8>) -> (r: String)
    requires
        is_ascii_bytes(b@),
    ensures
        r@ == ascii_text(b@),
{
    String::from_utf8(b).unwrap()
}

/// The bytes of an ASCII string slice.
pub fn ascii_slice_bytes(s: &str) -> (r: &[u8])
    requires
        is_ascii_chars(s@),
    ensures
        r@ == ascii_bytes(s@),
{
    broadcast use vstd::string::is_ascii_spec_bytes;
    let r = s.as_bytes();
    assert(is_ascii(s));
    assert(r@ =~= ascii_bytes(s@));
    r
}

} // verus!
