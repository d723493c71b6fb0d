//! The text form of bytes: standard base64, as the `b64` crate writes and reads it.

use b64::FromBase64;
use b64::FromBase64Error;
use b64::ToBase64;
use vstd::prelude::*;

verus! {

/// The text that `b64` writes for `bytes` under its `STANDARD` configuration.
pub uninterp spec fn base64_text(bytes: Seq<u8>) -> Seq<char>;

/// The bytes that `b64` reads from `text`, or `None` where it reports an error.
pub uninterp spec fn base64_bytes(text: Seq<char>) -> Option<Seq<u8>>;

/// Writes `bytes` as base64 with `b64::ToBase64::to_base64` and the `STANDARD`
/// configuration: the standard alphabet, padded, without line breaks. The contract names
/// the text, and claims that `b64` reads the same bytes back from it.
#[verifier::external_body]
pub(crate) fn to_base64(bytes: &[u8]) -> (text: String)
    ensures
        text@ == base64_text(bytes@),
        base64_bytes(text@) == Some(bytes@),
{
    bytes.to_base64(b64::STANDARD)
}

/// Reads base64 with `b64::FromBase64::from_base64`, which skips line breaks, takes the
/// URL-safe alphabet beside the standard one, and stops at the padding. The contract
/// names the bytes that come back, and says that an error comes back exactly where there
/// are none.
#[verifier::external_body]
pub(crate) fn from_base64(text: &str) -> (decoded: Result<Vec<u8>, FromBase64Error>)
    ensures
        match decoded {
            Ok(bytes) => base64_bytes(text@) == Some(bytes@),
            Err(_) => base64_bytes(text@) is None,
        },
{
    text.from_base64()
}

} // verus!
