//! Base64 and text from bytes.

use base64::engine::general_purpose::STANDARD;
use base64::Engine as _;
use vstd::prelude::*;

verus! {

/// The standard base64 text, with padding, that the `base64` crate gives for bytes.
pub uninterp spec fn base64_text(bytes: Seq<u8>) -> Seq<char>;

/// The bytes that the `base64` crate reads in a standard base64 text, or `None` where it reports
/// an error.
pub uninterp spec fn base64_bytes(text: Seq<char>) -> Option<Seq<u8>>;

/// The text that `String::from_utf8_lossy` makes of bytes.
pub uninterp spec fn lossy_text(bytes: Seq<u8>) -> Seq<char>;

/// `base64::Engine::encode` of the standard engine. It is a function of the bytes.
#[verifier::external_body]
pub(crate) fn encode_base64(bytes: &[u8]) -> (r: String)
    ensures
        r@ == base64_text(bytes@),
{
    STANDARD.encode(bytes)
}

/// `base64::Engine::decode` of the standard engine. It is a function of the text, and gives back
/// the bytes that a text was made from.
#[verifier::external_body]
pub(crate) fn decode_base64(text: &str) -> (r: Option<Vec<u8>>)
    ensures
        r is Some == base64_bytes(text@) is Some,
        r is Some ==> base64_bytes(text@) == Some(r->0@),
        forall|bytes: Seq<u8>|
            text@ == #[trigger] base64_text(bytes) ==> r is Some && r->0@ == bytes,
{
    STANDARD.decode(text).ok()
}

/// `String::from_utf8_lossy`: the text of the bytes, with what is no UTF-8 replaced by U+FFFD. The
/// bytes of a text give that text, and bytes without a zero give a text without NUL.
#[verifier::external_body]
pub(crate) fn text_from_bytes(bytes: &[u8]) -> (r: String)
    ensures
        r@ == lossy_text(bytes@),
        forall|s: Seq<char>| bytes@ == #[trigger] vstd::utf8::encode_utf8(s) ==> r@ == s,
        !bytes@.contains(0) ==> !r@.contains('\0'),
{
    String::from_utf8_lossy(bytes).into_owned()
}

/// The bytes of a text.
pub open spec fn bytes_of(s: Seq<char>) -> Seq<u8> {
    vstd::utf8::encode_utf8(s)
}

/// The base64 text of a text's bytes.
pub fn base64_of(s: &str) -> (r: String)
    ensures
        r@ == base64_text(bytes_of(s@)),
{
    encode_base64(s.as_bytes())
}

} // verus!
