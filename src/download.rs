//! The download steps that decide: decoding the payload and reporting the
//! outcome of the write.

use base64::Engine;
use vstd::prelude::*;

use crate::error::BridgeError;

verus! {

/// What padded standard base64 (RFC 4648 alphabet) decoding yields for `s`:
/// the bytes, or `None` where `s` is not valid.
pub uninterp spec fn standard_decoded(s: Seq<char>) -> Option<Seq<u8>>;

/// Relies on base64's `Engine::decode` with the `STANDARD` engine: the decoded
/// bytes, or the decoder's error message.
#[verifier::external_body]
fn decode_standard(s: &str) -> (r: Result<Vec<u8>, String>)
    ensures
        r matches Ok(v) ==> standard_decoded(s@) == Some(v@),
        r is Err ==> standard_decoded(s@) is None,
{
    base64::engine::general_purpose::STANDARD.decode(s).map_err(|e| e.to_string())
}

/// Decodes a download payload. The payload is taken by value and released
/// once decoded.
pub fn decode_payload(data_base64: String) -> (r: Result<Vec<u8>, BridgeError>)
    ensures
        standard_decoded(data_base64@) matches Some(b) ==> (r matches Ok(v) && v@ == b),
        standard_decoded(data_base64@) is None ==> r matches Err(BridgeError::DecodeError(_)),
{
    let decoded = decode_standard(data_base64.as_str());
    match decoded {
        Ok(v) => Ok(v),
        Err(m) => Err(BridgeError::DecodeError(m)),
    }
}

/// Turns the outcome of writing the file named `name` into the command's
/// result: the name on success, `IoWriteError` with the write's message
/// otherwise.
pub fn finish_write(written: Result<(), String>, name: String) -> (r: Result<String, BridgeError>)
    ensures
        written is Ok ==> r == Ok::<String, BridgeError>(name),
        written matches Err(m) ==> r == Err::<String, BridgeError>(BridgeError::IoWriteError(m)),
{
    match written {
        Ok(()) => Ok(name),
        Err(m) => Err(BridgeError::IoWriteError(m)),
    }
}

/// Turns the outcome of preparing the download directory into the command's
/// result: `DirectoryError` with its message on failure.
pub fn finish_directory(prepared: Result<(), String>) -> (r: Result<(), BridgeError>)
    ensures
        prepared is Ok ==> r is Ok,
        prepared matches Err(m) ==> r == Err::<(), BridgeError>(BridgeError::DirectoryError(m)),
{
    match prepared {
        Ok(()) => Ok(()),
        Err(m) => Err(BridgeError::DirectoryError(m)),
    }
}

/// Decoding one payload twice, for two downloads under different names,
/// yields the same bytes both times.
pub proof fn lemma_same_payload_same_bytes(payload: Seq<char>, first: Seq<u8>, second: Seq<u8>)
    requires
        standard_decoded(payload) == Some(first),
        standard_decoded(payload) == Some(second),
    ensures
        first == second,
{
}

} // verus!
