//! Random identifiers and their URL-safe Base64 text.
use base64::engine::general_purpose::URL_SAFE_NO_PAD;
use base64::Engine as _;
use uuid::Uuid;
use vstd::prelude::*;

verus! {

/// The character for a six-bit value in the URL-safe Base64 alphabet
/// (RFC 4648, table 2).
pub open spec fn b64_url_char(v: nat) -> char {
    if v < 26 {
        (('A' as u8) + (v as u8)) as u8 as char
    } else if v < 52 {
        (('a' as u8) + ((v - 26) as u8)) as u8 as char
    } else if v < 62 {
        (('0' as u8) + ((v - 52) as u8)) as u8 as char
    } else if v == 62 {
        '-'
    } else {
        '_'
    }
}

/// URL-safe Base64 without padding: each three bytes give four characters,
/// a final one or two bytes give two or three.
pub open spec fn b64_url_nopad(b: Seq<u8>) -> Seq<char>
    decreases b.len(),
{
    if b.len() == 0 {
        seq![]
    } else if b.len() == 1 {
        seq![b64_url_char((b[0] / 4) as nat), b64_url_char(((b[0] % 4) * 16) as nat)]
    } else if b.len() == 2 {
        seq![
            b64_url_char((b[0] / 4) as nat),
            b64_url_char(((b[0] % 4) * 16 + b[1] / 16) as nat),
            b64_url_char(((b[1] % 16) * 4) as nat),
        ]
    } else {
        seq![
            b64_url_char((b[0] / 4) as nat),
            b64_url_char(((b[0] % 4) * 16 + b[1] / 16) as nat),
            b64_url_char(((b[1] % 16) * 4 + b[2] / 64) as nat),
            b64_url_char((b[2] % 64) as nat),
        ] + b64_url_nopad(b.skip(3))
    }
}

/// `base64::engine::general_purpose::URL_SAFE_NO_PAD.encode(bytes)`: stated
/// to be the RFC 4648 URL-safe encoding without padding.
#[verifier::external_body]
fn encode_url_safe_no_pad(bytes: &[u8]) -> (s: String)
    ensures
        s@ == b64_url_nopad(bytes@),
{
    URL_SAFE_NO_PAD.encode(bytes)
}

/// The sixteen bytes of a version 4 UUID: the high four bits of byte 6
/// hold the version, 4, and the high two bits of byte 8 the RFC 4122
/// variant, `10`.
pub open spec fn v4_bytes(b: Seq<u8>) -> bool {
    &&& b.len() == 16
    &&& b[6] / 16 == 4
    &&& b[8] / 64 == 2
}

/// The sixteen bytes of `uuid::Uuid::new_v4()`. They are random: what is
/// stated is their number and the version and variant bits that `new_v4`
/// sets.
#[verifier::external_body]
fn new_v4_bytes() -> (b: Vec<u8>)
    ensures
        v4_bytes(b@),
{
    Uuid::new_v4().as_bytes().to_vec()
}

/// `rand::random::<u64>()`. Random: nothing is stated of it.
#[verifier::external_body]
pub(crate) fn random_u64() -> u64 {
    rand::random::<u64>()
}

/// The MCP path slug made of the first twelve of `bytes`: URL-safe Base64
/// without padding.
pub open spec fn mcp_slug_of(bytes: Seq<u8>) -> Seq<char> {
    b64_url_nopad(bytes.take(12))
}

/// The MCP path slug of the first twelve of `bytes`.
pub fn mcp_slug_from_bytes(bytes: &[u8]) -> (s: String)
    requires
        bytes@.len() >= 12,
    ensures
        s@ == mcp_slug_of(bytes@),
{
    let mut first: Vec<u8> = Vec::new();
    let mut i: usize = 0;
    while i < 12
        invariant
            i <= 12,
            bytes@.len() >= 12,
            first@ == bytes@.take(i as int),
        decreases 12 - i,
    {
        first.push(bytes[i]);
        assert(bytes@.take(i + 1) =~= bytes@.take(i as int).push(bytes@[i as int]));
        i += 1;
    }
    encode_url_safe_no_pad(first.as_slice())
}

/// A fresh MCP path slug: the slug of the bytes of a new random version 4
/// UUID.
pub fn generate_mcp_slug() -> (s: String)
    ensures
        exists|b: Seq<u8>| v4_bytes(b) && s@ == mcp_slug_of(b),
{
    let bytes = new_v4_bytes();
    mcp_slug_from_bytes(bytes.as_slice())
}

} // verus!
