//! Error kinds reported by the library.

use vstd::prelude::*;
use vstd::string::StringExecFns;

verus! {

/// The failure kinds a read cycle or a watch loop can report.
///
/// Variants carry a plain textual description; conversion from operating
/// system error values happens outside the library.
#[derive(Debug, Clone, PartialEq, Eq)]
pub enum Error {
    /// An I/O operation on the tailed file failed.
    Io { message: String },
    /// The filesystem notification subsystem failed, at registration or
    /// while delivering events.
    Watcher { message: String },
    /// Newly read bytes were not valid UTF-8 where text was expected.
    Utf8 { message: String },
    /// A malformed path was supplied.
    InvalidPath { message: String },
    /// The tailed file disappeared where it was required to exist.
    FileNotFound { path: String },
    /// An operation was attempted on an already-terminated stream.
    StreamClosed,
}

impl Error {
    /// The human-readable description of this error.
    pub open spec fn message_spec(&self) -> Seq<char> {
        match self {
            Error::Io { message } => "I/O error: "@ + message@,
            Error::Watcher { message } => "File watcher error: "@ + message@,
            Error::Utf8 { message } => "UTF-8 decoding error: "@ + message@,
            Error::InvalidPath { message } => "Invalid file path: "@ + message@,
            Error::FileNotFound { path } => "File no longer exists: "@ + path@,
            Error::StreamClosed => "Stream closed"@,
        }
    }

    /// Renders the error as one line of text.
    pub fn message(&self) -> (text: String)
        ensures
            text@ == self.message_spec(),
    {
        match self {
            Error::Io { message } => {
                let mut text = "I/O error: ".to_owned();
                text.append(message.as_str());
                text
            },
            Error::Watcher { message } => {
                let mut text = "File watcher error: ".to_owned();
                text.append(message.as_str());
                text
            },
            Error::Utf8 { message } => {
                let mut text = "UTF-8 decoding error: ".to_owned();
                text.append(message.as_str());
                text
            },
            Error::InvalidPath { message } => {
                let mut text = "Invalid file path: ".to_owned();
                text.append(message.as_str());
                text
            },
            Error::FileNotFound { path } => {
                let mut text = "File no longer exists: ".to_owned();
                text.append(path.as_str());
                text
            },
            Error::StreamClosed => "Stream closed".to_owned(),
        }
    }
}

} // verus!
