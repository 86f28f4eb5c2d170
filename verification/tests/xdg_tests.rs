use clapboard::xdg_dirs::{placed_config_file, prefixed_dir, ToXdgDir, XdgDirType, XdgHomes};
use clapboard::clipboard::recorder::ClipboardRecorder;
use clapboard::clipboard::{ListenerType, RecordingConfig};
use clapboard::Error;
use std::path::PathBuf;
use xdg::BaseDirectories;

#[test]
fn xdg_dir_type_from_words() {
    assert_eq!(XdgDirType::from_str("config"), Ok(XdgDirType::Config));
    assert_eq!(XdgDirType::from_str("DATA"), Ok(XdgDirType::Data));
    assert_eq!(XdgDirType::from_str("Cache"), Ok(XdgDirType::Cache));
    assert_eq!(
        XdgDirType::from_str("state"),
        Err(Error::Generic("Unknown XDG directory type: state".to_string()))
    );
    assert_eq!("cache".parse::<XdgDirType>(), Ok(XdgDirType::Cache));
    assert_eq!(XdgDirType::from_name("Data"), XdgDirType::Data);
    for t in [XdgDirType::Config, XdgDirType::Data, XdgDirType::Cache] {
        assert_eq!(XdgDirType::from_name(t.name()), t);
    }
}

fn homes(home: Option<&str>) -> XdgHomes {
    XdgHomes {
        user_prefix: "clapboard".to_string(),
        config_home: home.map(|h| format!("{h}/config")),
        data_home: home.map(|h| format!("{h}/data")),
        cache_home: home.map(|h| format!("{h}/cache")),
    }
}

#[test]
fn data_and_cache_are_the_prefixed_homes() {
    let d = homes(Some("/home/u"));
    assert_eq!(d.to_xdg_dir(XdgDirType::Data), Ok("/home/u/data/clapboard".to_string()));
    assert_eq!(d.to_xdg_dir(XdgDirType::Cache), Ok("/home/u/cache/clapboard".to_string()));
    assert_eq!(d.to_xdg_dir(XdgDirType::Config), Ok("/home/u/config/clapboard/config.toml".to_string()));
}

#[test]
fn missing_homes_are_errors() {
    let d = homes(None);
    assert_eq!(
        d.to_xdg_dir(XdgDirType::Data),
        Err(Error::Generic("Data home directory not available".to_string()))
    );
    assert_eq!(
        d.to_xdg_dir(XdgDirType::Cache),
        Err(Error::Generic("Cache home directory not available".to_string()))
    );
    assert_eq!(
        d.to_xdg_dir(XdgDirType::Config),
        Err(Error::Generic("Failed to get config directory: $HOME must be set".to_string()))
    );
}

#[test]
fn lookup_agrees_with_the_xdg_crate() {
    let mut b = BaseDirectories::with_prefix("clapboard");
    b.data_home = Some(PathBuf::from("/home/u/.local/share"));
    b.cache_home = Some(PathBuf::from("/home/u/.cache"));
    b.config_home = Some(PathBuf::from("/tmp/clapboard_xdg_test_home/config"));
    let h = XdgHomes {
        user_prefix: b.user_prefix.to_string_lossy().into_owned(),
        config_home: b.config_home.as_ref().map(|p| p.to_string_lossy().into_owned()),
        data_home: b.data_home.as_ref().map(|p| p.to_string_lossy().into_owned()),
        cache_home: b.cache_home.as_ref().map(|p| p.to_string_lossy().into_owned()),
    };
    assert_eq!(h.to_xdg_dir(XdgDirType::Data).unwrap(), b.get_data_home().unwrap().to_string_lossy());
    assert_eq!(h.to_xdg_dir(XdgDirType::Cache).unwrap(), b.get_cache_home().unwrap().to_string_lossy());
    assert_eq!(
        h.to_xdg_dir(XdgDirType::Config).unwrap(),
        b.place_config_file("config.toml").unwrap().to_string_lossy()
    );
    b.config_home = None;
    let e = b.place_config_file("config.toml").unwrap_err();
    assert_eq!(e.to_string(), "$HOME must be set");
}

#[test]
fn config_file_lies_under_config_home() {
    let p = homes(Some("/tmp/clapboard_xdg_test_home")).to_xdg_dir(XdgDirType::Config).unwrap();
    assert_eq!(p, "/tmp/clapboard_xdg_test_home/config/clapboard/config.toml");
    assert!(p.ends_with("config.toml"));
}

#[test]
fn home_file_helpers() {
    assert_eq!(prefixed_dir(&Some("/h".to_string()), "p", "none"), Ok("/h/p".to_string()));
    assert_eq!(prefixed_dir(&None, "p", "none"), Err(Error::Generic("none".to_string())));
    assert_eq!(placed_config_file(Ok("/p".to_string())), Ok("/p".to_string()));
    assert_eq!(
        placed_config_file(Err("denied".to_string())),
        Err(Error::Generic("Failed to get config directory: denied".to_string()))
    );
}

#[test]
fn recorder_and_recording_config_hold_their_parts() {
    let c = RecordingConfig::new(vec![ListenerType::Primary], "/cache".to_string(), 3);
    assert_eq!(c.listeners, vec![ListenerType::Primary]);
    assert_eq!(c.cache_dir, "/cache");
    assert_eq!(c.history_size, 3);
    let r = ClipboardRecorder::new(c);
    assert_eq!(r.config.history_size, 3);
}
