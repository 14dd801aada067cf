use vstd::prelude::*;
use base64::Engine;

verus! {

/// The character of a 6-bit value in the standard base64 alphabet.
pub open spec fn b64_char(v: int) -> char {
    if v < 26 {
        (('A' as int) + v) as char
    } else if v < 52 {
        (('a' as int) + v - 26) as char
    } else if v < 62 {
        (('0' as int) + v - 52) as char
    } else if v == 62 {
        '+'
    } else {
        '/'
    }
}

/// The standard base64 encoding with `=` padding: each group of three
/// bytes becomes four characters; a last group of one or two bytes becomes
/// two or three characters followed by `=` padding to four.
pub open spec fn base64_standard(b: Seq<u8>) -> Seq<char>
    decreases b.len(),
{
    let x0 = b[0] as int;
    let x1 = b[1] as int;
    let x2 = b[2] as int;
    if b.len() == 0 {
        Seq::empty()
    } else if b.len() == 1 {
        seq![b64_char(x0 / 4), b64_char((x0 % 4) * 16), '=', '=']
    } else if b.len() == 2 {
        seq![b64_char(x0 / 4), b64_char((x0 % 4) * 16 + x1 / 16), b64_char((x1 % 16) * 4), '=']
    } else {
        seq![b64_char(x0 / 4), b64_char((x0 % 4) * 16 + x1 / 16), b64_char((x1 % 16) * 4 + x2 / 64),
            b64_char(x2 % 64)] + base64_standard(b.subrange(3, b.len() as int))
    }
}

/// Encodes bytes with `base64::engine::general_purpose::STANDARD` (the
/// standard alphabet with padding). It panics when the length of the
/// encoding does not fit in a `usize`, so that is excluded.
#[verifier::external_body]
pub fn base64_encode(bytes: &[u8]) -> (r: String)
    requires
        (bytes@.len() / 3) * 4 + 4 <= usize::MAX,
    ensures
        r@ == base64_standard(bytes@),
{
    base64::engine::general_purpose::STANDARD.encode(bytes)
}

} // verus!
