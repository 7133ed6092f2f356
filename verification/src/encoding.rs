//! The transport encoding of certificates, signatures and the trust anchor.

use vstd::prelude::*;
use vstd::string::*;
use vstd::utf8::*;
use crate::trusted::{base64_decoding, decode_block, MAX_ENCODED_LEN};
use crate::decision::DecodeError;

verus! {

/// The bytes that a base64 text carries. A text longer than the decoder can
/// take carries none, like one that is not base64.
pub open spec fn spec_decode(text: Seq<char>) -> Option<Seq<u8>> {
    if encode_utf8(text).len() <= MAX_ENCODED_LEN {
        base64_decoding(text)
    } else {
        None
    }
}

/// Decodes a base64 text. Whatever the text, this returns: malformed input
/// is an error, never a fault.
pub fn decode(text: &str) -> (bytes: Result<Vec<u8>, DecodeError>)
    ensures
        match bytes {
            Ok(b) => spec_decode(text@) == Some(b@),
            Err(_) => spec_decode(text@) is None,
        },
{
    if text.as_bytes().len() > MAX_ENCODED_LEN {
        return Err(DecodeError);
    }
    match decode_block(text) {
        Ok(bytes) => Ok(bytes),
        Err(_) => Err(DecodeError),
    }
}

} // verus!
