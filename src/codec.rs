//! The text form in which stored bytes travel back to a front end.
use vstd::prelude::*;

verus! {

/// The standard, padded base64 text of `b`.
pub uninterp spec fn base64_of(b: Seq<u8>) -> Seq<char>;

/// The length of padded base64 text for `n` bytes: four characters for each
/// started group of three bytes.
pub open spec fn base64_len(n: nat) -> nat {
    4 * ((n + 2) / 3)
}

/// A character of the standard base64 alphabet: `A-Z`, `a-z`, `0-9`, `+`
/// and `/`.
pub open spec fn is_base64_digit(c: char) -> bool {
    ('A' <= c && c <= 'Z') || ('a' <= c && c <= 'z') || ('0' <= c && c <= '9') || c == '+' || c
        == '/'
}

/// `s` is made of base64 digits, followed by at most two `=`; in particular
/// it holds no line break.
pub open spec fn is_padded_base64(s: Seq<char>) -> bool {
    forall|i: int|
        0 <= i < s.len() ==> is_base64_digit(#[trigger] s[i]) || (s[i] == '=' && i + 2 >= s.len()
            && (i + 1 < s.len() ==> s[i + 1] == '='))
}

/// Relies on base64's `Engine::encode` with the `STANDARD` engine: the
/// standard alphabet, `=` padding up to a multiple of four characters, no
/// line breaks. It panics only where the output length overflows `usize`.
#[verifier::external_body]
fn encode_standard(bytes: &[u8]) -> (r: String)
    requires
        base64_len(bytes@.len()) <= usize::MAX,
    ensures
        r@ == base64_of(bytes@),
        r@.len() == base64_len(bytes@.len()),
        is_padded_base64(r@),
{
    base64::Engine::encode(&base64::engine::general_purpose::STANDARD, bytes)
}

/// Encodes stored bytes as standard padded base64 text, without line
/// breaks.
pub fn encode_payload(bytes: &[u8]) -> (r: String)
    requires
        base64_len(bytes@.len()) <= usize::MAX,
    ensures
        r@ == base64_of(bytes@),
        r@.len() == base64_len(bytes@.len()),
        is_padded_base64(r@),
{
    encode_standard(bytes)
}

} // verus!
