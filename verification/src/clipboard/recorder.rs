use vstd::prelude::*;
use crate::clipboard::RecordingConfig;

verus! {

/// The clipboard recorder: what it listens to and where it stores what it hears.
pub struct ClipboardRecorder {
    pub config: RecordingConfig,
}

impl ClipboardRecorder {
    /// The recorder for `config`.
    pub fn new(config: RecordingConfig) -> (r: ClipboardRecorder)
        ensures
            r.config == config,
    {
        ClipboardRecorder { config }
    }
}

} // verus!
