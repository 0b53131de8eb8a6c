//! Armoring of raw bytes as standard, padded base64 text.
use base64::Engine;
use vstd::prelude::*;

verus! {

/// The 64 digits of the standard base64 alphabet, in order.
pub open spec fn b64_alphabet() -> Seq<char> {
    seq![
        'A', 'B', 'C', 'D', 'E', 'F', 'G', 'H', 'I', 'J', 'K', 'L', 'M',
        'N', 'O', 'P', 'Q', 'R', 'S', 'T', 'U', 'V', 'W', 'X', 'Y', 'Z',
        'a', 'b', 'c', 'd', 'e', 'f', 'g', 'h', 'i', 'j', 'k', 'l', 'm',
        'n', 'o', 'p', 'q', 'r', 's', 't', 'u', 'v', 'w', 'x', 'y', 'z',
        '0', '1', '2', '3', '4', '5', '6', '7', '8', '9', '+', '/',
    ]
}

/// The base64 digit of a six-bit value.
pub open spec fn b64_digit(v: int) -> char {
    b64_alphabet()[v]
}

/// The standard padded base64 text of `b`: each group of three bytes
/// becomes four digits; a final group of one or two bytes is padded with `=`.
pub open spec fn b64_encode(b: Seq<u8>) -> Seq<char>
    decreases b.len(),
{
    if b.len() == 0 {
        Seq::empty()
    } else {
        let x = b[0] as int;
        let y = if b.len() > 1 { b[1] as int } else { 0 };
        let z = if b.len() > 2 { b[2] as int } else { 0 };
        let d0 = b64_digit(x / 4);
        let d1 = b64_digit((x % 4) * 16 + y / 16);
        let d2 = b64_digit((y % 16) * 4 + z / 64);
        let d3 = b64_digit(z % 64);
        if b.len() == 1 {
            seq![d0, d1, '=', '=']
        } else if b.len() == 2 {
            seq![d0, d1, d2, '=']
        } else {
            seq![d0, d1, d2, d3] + b64_encode(b.subrange(3, b.len() as int))
        }
    }
}

/// The bytes whose standard padded base64 text is `s`, if there are any.
pub uninterp spec fn b64_decode(s: Seq<char>) -> Option<Seq<u8>>;

/// Relies on base64's `STANDARD.encode`: padded standard base64, which
/// `STANDARD.decode` turns back into the bytes.
#[verifier::external_body]
pub(crate) fn encode(b: &[u8]) -> (r: String)
    ensures
        r@ == b64_encode(b@),
        b64_decode(r@) == Some(b@),
{
    base64::engine::general_purpose::STANDARD.encode(b)
}

/// Relies on base64's `STANDARD.decode`, which accepts exactly canonical
/// padded text: it inverts `STANDARD.encode`.
#[verifier::external_body]
pub(crate) fn decode(s: &str) -> (r: Option<Vec<u8>>)
    ensures
        match r {
            Some(v) => b64_decode(s@) == Some(v@) && b64_encode(v@) == s@,
            None => b64_decode(s@) is None,
        },
{
    base64::engine::general_purpose::STANDARD.decode(s).ok()
}

} // verus!
