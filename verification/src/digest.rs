//! SHA-256 digests as text.

use vstd::prelude::*;
use vstd::string::*;
use vstd::utf8::*;

verus! {

/// The SHA-256 digest of `bytes` in lower-case hexadecimal.
pub uninterp spec fn sha256_of(bytes: Seq<u8>) -> Seq<char>;

/// Whether `s` holds lower-case hexadecimal digits only.
pub open spec fn is_lower_hex(s: Seq<char>) -> bool {
    forall|i: int|
        0 <= i < s.len() ==> ('0' <= #[trigger] s[i] <= '9' || 'a' <= s[i] <= 'f')
}

/// `sha2::Sha256::digest`, printed with `LowerHex`: a function of the bytes,
/// always thirty-two bytes long and so sixty-four hexadecimal digits.
#[verifier::external_body]
pub(crate) fn sha256_lower_hex(bytes: &[u8]) -> (r: String)
    ensures
        r@ == sha256_of(bytes@),
        r@.len() == 64,
        is_lower_hex(r@),
{
    format!("{:x}", <sha2::Sha256 as sha2::Digest>::digest(bytes))
}

/// The digest of a message body, for logs that must not hold the body.
pub fn sha256_hex(content: &str) -> (r: String)
    ensures
        r@ == sha256_of(encode_utf8(content@)),
        r@.len() == 64,
        is_lower_hex(r@),
{
    sha256_lower_hex(content.as_bytes())
}

} // verus!
