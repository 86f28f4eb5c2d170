use clapboard::cli::{Cli, RecordingMode};
use clapboard::clipboard::ListenerType;
use clapboard::Error;

#[test]
fn recording_mode_from_names_and_numbers() {
    assert_eq!(RecordingMode::from_str("primary"), Ok(RecordingMode::Primary));
    assert_eq!(RecordingMode::from_str("0"), Ok(RecordingMode::Primary));
    assert_eq!(RecordingMode::from_str("clipboard"), Ok(RecordingMode::Clipboard));
    assert_eq!(RecordingMode::from_str("1"), Ok(RecordingMode::Clipboard));
    assert_eq!(RecordingMode::from_str("both"), Ok(RecordingMode::Both));
    assert_eq!(RecordingMode::from_str("2"), Ok(RecordingMode::Both));
}

#[test]
fn recording_mode_ignores_case() {
    assert_eq!(RecordingMode::from_str("PRIMARY"), Ok(RecordingMode::Primary));
    assert_eq!(RecordingMode::from_str("ClipBoard"), Ok(RecordingMode::Clipboard));
    assert_eq!("BOTH".parse::<RecordingMode>(), Ok(RecordingMode::Both));
}

#[test]
fn recording_mode_rejects_other_words() {
    assert_eq!(
        RecordingMode::from_str("Sometimes"),
        Err(Error::InvalidRecordingMode("Sometimes".to_string()))
    );
    assert_eq!(RecordingMode::from_str(""), Err(Error::InvalidRecordingMode(String::new())));
    assert_eq!(RecordingMode::from_str("3"), Err(Error::InvalidRecordingMode("3".to_string())));
    assert_eq!(RecordingMode::from_str(" both"), Err(Error::InvalidRecordingMode(" both".to_string())));
}

#[test]
fn recording_mode_names_read_back() {
    for m in [RecordingMode::Primary, RecordingMode::Clipboard, RecordingMode::Both] {
        assert_eq!(RecordingMode::from_str(m.name()), Ok(m));
    }
    assert_eq!(RecordingMode::Primary.name(), "primary");
    assert_eq!(RecordingMode::Clipboard.name(), "clipboard");
    assert_eq!(RecordingMode::Both.name(), "both");
}

#[test]
fn cli_holds_the_mode() {
    assert_eq!(Cli::new(RecordingMode::Clipboard).recording_mode, RecordingMode::Clipboard);
}

#[test]
fn listeners_for_each_mode() {
    assert_eq!(ListenerType::for_mode(RecordingMode::Primary), vec![ListenerType::Primary]);
    assert_eq!(ListenerType::for_mode(RecordingMode::Clipboard), vec![ListenerType::Clipboard]);
    assert_eq!(
        ListenerType::for_mode(RecordingMode::Both),
        vec![ListenerType::Primary, ListenerType::Clipboard]
    );
}

#[test]
fn listener_from_words() {
    assert_eq!(ListenerType::from("primary"), ListenerType::Primary);
    assert_eq!(ListenerType::from("0"), ListenerType::Primary);
    assert_eq!(ListenerType::from("clipboard"), ListenerType::Clipboard);
    assert_eq!(ListenerType::from("PRIMARY"), ListenerType::Clipboard);
    assert_eq!(ListenerType::from("anything"), ListenerType::Clipboard);
    let s: &'static str = (&ListenerType::Primary).into();
    assert_eq!(s, "primary");
    let t: &'static str = (&ListenerType::Clipboard).into();
    assert_eq!(t, "clipboard");
    assert_eq!(ListenerType::from(ListenerType::Clipboard.name()), ListenerType::Clipboard);
}

#[test]
fn error_messages() {
    assert_eq!(Error::Generic("x".to_string()).message(), "Generic error handler: x");
    assert_eq!(Error::InvalidRecordingMode("y".to_string()).message(), "Invalid recording mode: y");
    assert_eq!(Error::XdgDirectoryNotAvailable("z".to_string()).message(), "Invalid configuration: z");
    assert_eq!(Error::ConfigParse("p".to_string()).message(), "Configuration parse error: p");
    assert_eq!(Error::Io("i".to_string()).message(), "IO error: i");
    assert_eq!(Error::InvalidXdgDirType("t".to_string()).message(), "Invalid XDG directory type: t");
    assert_eq!(Error::ClipboardError("c".to_string()).message(), "Clipboard error: c");
}
