use vstd::prelude::*;
use vstd::string::*;

verus! {

/// The failures that a bridge command reports to its caller.
#[derive(Debug, PartialEq, Eq)]
pub enum BridgeError {
    /// The link does not start with an allowed scheme.
    SchemeRejected,
    /// The system opener refused the link; carries its message.
    OsOpenError(String),
    /// The payload is not valid padded base64; carries the decoder's message.
    DecodeError(String),
    /// The download directory could not be found or created.
    DirectoryError(String),
    /// The file could not be written.
    IoWriteError(String),
}

/// The text that crosses the command boundary for an error.
pub open spec fn message_text(e: BridgeError) -> Seq<char> {
    match e {
        BridgeError::SchemeRejected => "unsupported url scheme"@,
        BridgeError::OsOpenError(m) => m@,
        BridgeError::DecodeError(m) => "Base64 decode error: "@ + m@,
        BridgeError::DirectoryError(m) => "Cannot create directory: "@ + m@,
        BridgeError::IoWriteError(m) => "Cannot write file: "@ + m@,
    }
}

impl BridgeError {
    /// The human-readable message handed back to the caller.
    pub fn message(&self) -> (r: String)
        ensures
            r@ == message_text(*self),
    {
        match self {
            BridgeError::SchemeRejected => String::from_str("unsupported url scheme"),
            BridgeError::OsOpenError(m) => m.clone(),
            BridgeError::DecodeError(m) => String::from_str("Base64 decode error: ").concat(m.as_str()),
            BridgeError::DirectoryError(m) => String::from_str("Cannot create directory: ").concat(
                m.as_str(),
            ),
            BridgeError::IoWriteError(m) => String::from_str("Cannot write file: ").concat(m.as_str()),
        }
    }
}

} // verus!
