//! Encoding of binary payloads (PNG renders, STL meshes) for tool results.

use base64::Engine;
use vstd::prelude::*;

verus! {

/// The standard base64 alphabet (RFC 4648, section 4).
pub open spec fn base64_digit(i: int) -> char {
    if i < 26 {
        (('A' as int) + i) as char
    } else if i < 52 {
        (('a' as int) + i - 26) as char
    } else if i < 62 {
        (('0' as int) + i - 52) as char
    } else if i == 62 {
        '+'
    } else {
        '/'
    }
}

/// Standard, padded base64: every 3 bytes become 4 digits; a final group of
/// 1 or 2 bytes becomes 2 or 3 digits followed by `=` padding.
pub open spec fn base64_model(b: Seq<u8>) -> Seq<char>
    decreases b.len(),
{
    if b.len() == 0 {
        Seq::empty()
    } else if b.len() == 1 {
        seq![base64_digit((b[0] as int) / 4), base64_digit(((b[0] as int) % 4) * 16), '=', '=']
    } else if b.len() == 2 {
        seq![
            base64_digit((b[0] as int) / 4),
            base64_digit(((b[0] as int) % 4) * 16 + (b[1] as int) / 16),
            base64_digit(((b[1] as int) % 16) * 4),
            '=',
        ]
    } else {
        seq![
            base64_digit((b[0] as int) / 4),
            base64_digit(((b[0] as int) % 4) * 16 + (b[1] as int) / 16),
            base64_digit(((b[1] as int) % 16) * 4 + (b[2] as int) / 64),
            base64_digit((b[2] as int) % 64),
        ] + base64_model(b.skip(3))
    }
}

/// Base64-encode raw bytes (standard alphabet, padded), through the `base64`
/// crate's `general_purpose::STANDARD` engine; its contract claims that the
/// engine produces exactly standard padded base64 of the bytes.
#[verifier::external_body]
pub fn base64_encode(bytes: &[u8]) -> (r: String)
    ensures
        r@ == base64_model(bytes@),
{
    base64::engine::general_purpose::STANDARD.encode(bytes)
}

} // verus!
