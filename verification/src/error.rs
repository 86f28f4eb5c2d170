use vstd::prelude::*;
use crate::text::concat;

verus! {

/// The errors of the library. Each carries the text that describes its cause.
#[derive(Debug, Clone, PartialEq, Eq)]
pub enum Error {
    Generic(String),
    InvalidRecordingMode(String),
    XdgDirectoryNotAvailable(String),
    ConfigParse(String),
    Io(String),
    InvalidXdgDirType(String),
    ClipboardError(String),
}

impl Error {
    /// The message that describes the error: its kind's heading, then its cause.
    pub open spec fn message_of(self) -> Seq<char> {
        match self {
            Error::Generic(s) => "Generic error handler: "@ + s@,
            Error::InvalidRecordingMode(s) => "Invalid recording mode: "@ + s@,
            Error::XdgDirectoryNotAvailable(s) => "Invalid configuration: "@ + s@,
            Error::ConfigParse(s) => "Configuration parse error: "@ + s@,
            Error::Io(s) => "IO error: "@ + s@,
            Error::InvalidXdgDirType(s) => "Invalid XDG directory type: "@ + s@,
            Error::ClipboardError(s) => "Clipboard error: "@ + s@,
        }
    }

    /// The message that describes the error, as the program prints it.
    pub fn message(&self) -> (m: String)
        ensures
            m@ == self.message_of(),
    {
        match self {
            Error::Generic(s) => concat("Generic error handler: ", s.as_str()),
            Error::InvalidRecordingMode(s) => concat("Invalid recording mode: ", s.as_str()),
            Error::XdgDirectoryNotAvailable(s) => concat("Invalid configuration: ", s.as_str()),
            Error::ConfigParse(s) => concat("Configuration parse error: ", s.as_str()),
            Error::Io(s) => concat("IO error: ", s.as_str()),
            Error::InvalidXdgDirType(s) => concat("Invalid XDG directory type: ", s.as_str()),
            Error::ClipboardError(s) => concat("Clipboard error: ", s.as_str()),
        }
    }
}

} // verus!
