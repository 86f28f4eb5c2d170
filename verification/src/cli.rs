use vstd::prelude::*;
use crate::error::Error;
use crate::text::{text_eq, to_lowercase, unicode_lowercase};

verus! {

/// The program's command line, once parsed: which clipboards it records.
pub struct Cli {
    pub recording_mode: RecordingMode,
}

impl Cli {
    /// The command line that asks for `recording_mode`.
    pub fn new(recording_mode: RecordingMode) -> (cli: Cli)
        ensures
            cli.recording_mode == recording_mode,
    {
        Cli { recording_mode }
    }
}

/// Which clipboards the recorder listens to.
#[derive(Debug, Clone, Copy, PartialEq, Eq, Structural)]
pub enum RecordingMode {
    Primary,
    Clipboard,
    Both,
}

/// The mode that a lowercase word names: its name or its number.
pub open spec fn recording_mode_named(word: Seq<char>) -> Option<RecordingMode> {
    if word == "primary"@ || word == "0"@ {
        Some(RecordingMode::Primary)
    } else if word == "clipboard"@ || word == "1"@ {
        Some(RecordingMode::Clipboard)
    } else if word == "both"@ || word == "2"@ {
        Some(RecordingMode::Both)
    } else {
        None
    }
}

/// The name under which a mode is shown.
pub open spec fn mode_name(mode: RecordingMode) -> Seq<char> {
    match mode {
        RecordingMode::Primary => "primary"@,
        RecordingMode::Clipboard => "clipboard"@,
        RecordingMode::Both => "both"@,
    }
}

impl RecordingMode {
    /// The mode that a lowercase word names, if it names one.
    pub fn from_lowercase(word: &str) -> (r: Option<RecordingMode>)
        ensures
            r == recording_mode_named(word@),
    {
        if text_eq(word, "primary") || text_eq(word, "0") {
            Some(RecordingMode::Primary)
        } else if text_eq(word, "clipboard") || text_eq(word, "1") {
            Some(RecordingMode::Clipboard)
        } else if text_eq(word, "both") || text_eq(word, "2") {
            Some(RecordingMode::Both)
        } else {
            None
        }
    }

    /// The mode that `s` names in any case ("primary", "clipboard", "both", or 0, 1, 2);
    /// an `InvalidRecordingMode` error holding `s` where it names none.
    pub fn from_str(s: &str) -> (r: Result<RecordingMode, Error>)
        ensures
            match recording_mode_named(unicode_lowercase(s@)) {
                Some(m) => r == Ok::<RecordingMode, Error>(m),
                None => r matches Err(Error::InvalidRecordingMode(t)) && t@ == s@,
            },
    {
        let lower = to_lowercase(s);
        match RecordingMode::from_lowercase(lower.as_str()) {
            Some(m) => Ok(m),
            None => Err(Error::InvalidRecordingMode(s.to_owned())),
        }
    }

    /// The name under which the mode is shown.
    pub fn name(&self) -> (s: &'static str)
        ensures
            s@ == mode_name(*self),
    {
        match self {
            RecordingMode::Primary => "primary",
            RecordingMode::Clipboard => "clipboard",
            RecordingMode::Both => "both",
        }
    }
}

impl core::str::FromStr for RecordingMode {
    type Err = Error;

    fn from_str(s: &str) -> (r: Result<RecordingMode, Error>)
        ensures
            match recording_mode_named(unicode_lowercase(s@)) {
                Some(m) => r == Ok::<RecordingMode, Error>(m),
                None => r matches Err(Error::InvalidRecordingMode(t)) && t@ == s@,
            },
    {
        RecordingMode::from_str(s)
    }
}

/// A mode's shown name, read back, is that mode.
pub proof fn lemma_mode_name_round_trip(mode: RecordingMode)
    ensures
        recording_mode_named(mode_name(mode)) == Some(mode),
{
    reveal_strlit("primary");
    reveal_strlit("clipboard");
    reveal_strlit("both");
    reveal_strlit("0");
    reveal_strlit("1");
    reveal_strlit("2");
    assert("primary"@.len() == 7 && "clipboard"@.len() == 9 && "both"@.len() == 4);
    assert("0"@.len() == 1 && "1"@.len() == 1 && "2"@.len() == 1);
}

} // verus!
