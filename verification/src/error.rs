//! The error taxonomy shared by every operation of the library.

use vstd::prelude::*;

verus! {

/// Why an operation failed.
#[derive(Debug, PartialEq, Eq)]
pub enum EmbedError {
    /// The named file does not exist.
    FileNotFound(String),
    /// No text can be extracted from the named file.
    UnsupportedFileType(String),
    /// Weights, tokenizer or configuration are missing for the requested
    /// model identifier or numeric precision, or the identifier is unknown.
    ModelConstructionError,
    /// The chosen backend lacks a capability that the caller asked for.
    InvalidModelSelection,
    /// The configuration contradicts itself or holds a value out of range.
    ConfigurationError,
    /// The backend failed while embedding, or broke its contract.
    BackendCallError,
}

impl EmbedError {
    /// The text of the error, as shown to a user.
    pub open spec fn message_spec(self) -> Seq<char> {
        match self {
            EmbedError::FileNotFound(path) => "File not found: "@ + path@,
            EmbedError::UnsupportedFileType(path) => "Unsupported file type: "@ + path@,
            EmbedError::ModelConstructionError => "Model could not be constructed"@,
            EmbedError::InvalidModelSelection => "Model does not support this operation"@,
            EmbedError::ConfigurationError => "Invalid configuration"@,
            EmbedError::BackendCallError => "Backend call failed"@,
        }
    }

    /// Renders the error as text.
    pub fn message(&self) -> (s: String)
        ensures
            s@ == self.message_spec(),
    {
        match self {
            EmbedError::FileNotFound(path) => String::from_str("File not found: ").concat(
                path.as_str(),
            ),
            EmbedError::UnsupportedFileType(path) => String::from_str(
                "Unsupported file type: ",
            ).concat(path.as_str()),
            EmbedError::ModelConstructionError => String::from_str(
                "Model could not be constructed",
            ),
            EmbedError::InvalidModelSelection => String::from_str(
                "Model does not support this operation",
            ),
            EmbedError::ConfigurationError => String::from_str("Invalid configuration"),
            EmbedError::BackendCallError => String::from_str("Backend call failed"),
        }
    }
}

} // verus!
