//! Turning bytes into text: UTF-8 (strict and lossy) from `std`, and the
//! legacy encodings that `chardetng` detects and `encoding_rs` decodes.
use vstd::prelude::*;
use vstd::utf8::{decode_utf8, valid_utf8};

use crate::paths::opt_view;

verus! {

/// `std::str::from_utf8`: the text of bytes that are valid UTF-8, `None`
/// for any other bytes.
#[verifier::external_body]
pub(crate) fn utf8_text(bytes: &[u8]) -> (r: Option<String>)
    ensures
        r is Some <==> valid_utf8(bytes@),
        r matches Some(s) ==> s@ == decode_utf8(bytes@),
{
    match std::str::from_utf8(bytes) {
        Ok(s) => Some(s.to_owned()),
        Err(_) => None,
    }
}

/// The result of `String::from_utf8_lossy` on the bytes.
pub uninterp spec fn utf8_lossy(bytes: Seq<u8>) -> Seq<char>;

/// `String::from_utf8_lossy`: the bytes read as UTF-8, each invalid sequence
/// replaced by U+FFFD. The contract names the result; of it, it states only
/// what the documentation says of valid input: that it is decoded as is.
#[verifier::external_body]
pub(crate) fn lossy_text(bytes: &[u8]) -> (r: String)
    ensures
        r@ == utf8_lossy(bytes@),
        valid_utf8(bytes@) ==> r@ == decode_utf8(bytes@),
{
    String::from_utf8_lossy(bytes).into_owned()
}

/// The name of the encoding that `chardetng` guesses for the whole input.
pub uninterp spec fn detected_encoding(bytes: Seq<u8>) -> Seq<char>;

/// `chardetng::EncodingDetector`: fed the whole input at once, then asked to
/// guess with no top-level domain and UTF-8 allowed; the guess is returned
/// by its `encoding_rs` name. The contract names the result and claims
/// nothing of how the guess is made.
#[verifier::external_body]
pub(crate) fn detect_encoding(bytes: &[u8]) -> (name: String)
    ensures
        name@ == detected_encoding(bytes@),
{
    let mut detector = chardetng::EncodingDetector::new();
    detector.feed(bytes, true);
    detector.guess(None, true).name().to_owned()
}

/// The text that `encoding_rs` decodes from the bytes in the encoding with
/// the label, `None` when no encoding has that label.
pub uninterp spec fn decoded_as(label: Seq<char>, bytes: Seq<u8>) -> Option<Seq<char>>;

/// `encoding_rs::Encoding::decode` in the encoding that `Encoding::for_label`
/// finds for the label (`None` when it finds none). The contract names the
/// result and claims nothing of the decoding itself.
#[verifier::external_body]
pub(crate) fn decode_as(label: &str, bytes: &[u8]) -> (r: Option<String>)
    ensures
        opt_view(r) == decoded_as(label@, bytes@),
{
    match encoding_rs::Encoding::for_label(label.as_bytes()) {
        Some(encoding) => Some(encoding.decode(bytes).0.into_owned()),
        None => None,
    }
}

} // verus!
