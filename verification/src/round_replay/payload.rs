//! File contents as they are stored in a checkpoint: standard base64 with padding.

use base64::Engine;
use vstd::prelude::*;

verus! {

/// The standard base64 text of some bytes.
pub uninterp spec fn base64_text(contents: Seq<u8>) -> Seq<char>;

/// The bytes that a standard base64 text stands for, or the reason why it stands for none.
pub uninterp spec fn base64_contents(text: Seq<char>) -> Result<Seq<u8>, Seq<char>>;

/// The outcome of decoding a payload, with its bytes and its message as sequences.
pub open spec fn decoded_view(decoded: Result<Vec<u8>, String>) -> Result<Seq<u8>, Seq<char>> {
    match decoded {
        Ok(contents) => Ok(contents@),
        Err(reason) => Err(reason@),
    }
}

/// Calls `base64::Engine::encode` on the `STANDARD` engine. The text is determined
/// by the bytes, and decoding it gives the bytes back. Encoding aborts where the
/// length of the text would not fit in memory, so the input is bounded.
#[verifier::external_body]
pub(crate) fn encode_payload(contents: &Vec<u8>) -> (encoded: String)
    requires
        contents@.len() <= usize::MAX / 4,
    ensures
        encoded@ == base64_text(contents@),
        base64_contents(encoded@) is Ok,
        base64_contents(encoded@)->Ok_0 == contents@,
{
    base64::engine::general_purpose::STANDARD.encode(contents)
}

/// Calls `base64::Engine::decode` on the `STANDARD` engine. Both the bytes and the
/// message of a refusal are determined by the text.
#[verifier::external_body]
pub(crate) fn decode_payload(text: &str) -> (decoded: Result<Vec<u8>, String>)
    ensures
        decoded_view(decoded) == base64_contents(text@),
{
    base64::engine::general_purpose::STANDARD.decode(text).map_err(|error| error.to_string())
}

} // verus!
