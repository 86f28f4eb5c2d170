use clapboard::cli::RecordingMode;
use clapboard::clipboard::selector::{ClipboardSelector, ClipboardSource};
use clapboard::clipboard::{ClipboardEntry, ClipboardMode, ContentType, ListenerType, SelectingConfig};
use clapboard::configuration::core_settings::Core;
use clapboard::configuration::defaults::Defaults;
use clapboard::configuration::favourites::Favourites;
use clapboard::configuration::Configuration;
use clapboard::filesystem::cache::CacheItem;
use clapboard::Error;
use indexmap::IndexMap;

fn config_with(favourites: Vec<(&str, &str)>) -> Configuration {
    Configuration {
        path: "/c/config.toml".to_string(),
        core: Core { launcher: "menu".to_string(), launcher_args: vec!["-x".to_string()], history_size: 7 },
        defaults: Defaults { cache_dir: "/cache".to_string() },
        favourites: Favourites {
            items: favourites.into_iter().map(|(k, v)| (k.to_string(), v.to_string())).collect(),
        },
    }
}

fn selector(favourites: Vec<(&str, &str)>) -> ClipboardSelector {
    match ClipboardMode::mode(None, &config_with(favourites)).unwrap() {
        ClipboardMode::Selecting(c) => ClipboardSelector::new(c),
        ClipboardMode::Recording(_) => panic!("expected selecting"),
    }
}

#[test]
fn mode_with_recording_mode_records() {
    let config = config_with(vec![]);
    match ClipboardMode::mode(Some(RecordingMode::Both), &config).unwrap() {
        ClipboardMode::Recording(r) => {
            assert_eq!(r.listeners, vec![ListenerType::Primary, ListenerType::Clipboard]);
            assert_eq!(r.cache_dir, "/cache");
            assert_eq!(r.history_size, 7);
        },
        ClipboardMode::Selecting(_) => panic!("expected recording"),
    }
}

#[test]
fn mode_without_recording_mode_selects() {
    let config = config_with(vec![("home", "https://example.com"), ("mail", "me@example.com")]);
    match ClipboardMode::mode(None, &config).unwrap() {
        ClipboardMode::Selecting(s) => {
            assert_eq!(s.cache_dir, "/cache");
            assert_eq!(s.launcher, "menu");
            assert_eq!(s.launcher_args, vec!["-x".to_string()]);
            let favs: Vec<(&String, &String)> = s.favorites.iter().collect();
            assert_eq!(favs.len(), 2);
            assert_eq!(favs[0].0, "home");
            assert_eq!(favs[1].1, "me@example.com");
        },
        ClipboardMode::Recording(_) => panic!("expected selecting"),
    }
}

#[test]
fn selector_reads_its_cache_dir() {
    let s = selector(vec![]);
    assert_eq!(s.cache_manager.cache_dir, "/cache");
}

#[test]
fn favourites_join_the_history() {
    let s = selector(vec![("home", "https://example.com")]);
    let listing = vec![CacheItem { timestamp: "9".to_string(), text: Some("copied".to_string()) }];
    let entries = s.load_clipboard_entries(listing);
    let keys: Vec<&String> = entries.keys().collect();
    assert_eq!(keys, vec!["copied", "home"]);
    assert_eq!(
        entries.get("home"),
        Some(&ClipboardEntry {
            display_text: "home".to_string(),
            timestamp: "favorite".to_string(),
            content_type: ContentType::Favorite("https://example.com".to_string()),
        })
    );
}

#[test]
fn favourite_replaces_history_entry_of_same_name() {
    let s = selector(vec![("copied", "fav text")]);
    let mut entries = IndexMap::new();
    entries.insert(
        "copied".to_string(),
        ClipboardEntry {
            display_text: "copied".to_string(),
            timestamp: "9".to_string(),
            content_type: ContentType::Text("copied".to_string()),
        },
    );
    s.add_favorite_entries(&mut entries);
    assert_eq!(entries.len(), 1);
    assert_eq!(entries["copied"].content_type, ContentType::Favorite("fav text".to_string()));
}

#[test]
fn menu_input_lists_keys_one_per_line() {
    let s = selector(vec![("b", "2")]);
    let listing = vec![
        CacheItem { timestamp: "1".to_string(), text: Some("first".to_string()) },
        CacheItem { timestamp: "2".to_string(), text: None },
    ];
    let entries = s.load_clipboard_entries(listing);
    assert_eq!(ClipboardSelector::menu_input(&entries), "first\nBinary Content @ 2\nb");
    assert_eq!(ClipboardSelector::menu_input(&IndexMap::new()), "");
}

#[test]
fn menu_choice_strips_line_ends() {
    assert_eq!(ClipboardSelector::menu_choice(b"first\n"), Some("first".to_string()));
    assert_eq!(ClipboardSelector::menu_choice(b"first\r\n"), Some("first".to_string()));
    assert_eq!(ClipboardSelector::menu_choice(b"first\n\n"), Some("first".to_string()));
    assert_eq!(ClipboardSelector::menu_choice(b"a\nb"), Some("a\nb".to_string()));
    assert_eq!(ClipboardSelector::menu_choice(b"\n"), None);
    assert_eq!(ClipboardSelector::menu_choice(b""), None);
    assert_eq!(ClipboardSelector::menu_choice(b"x\n\r"), Some("x\n".to_string()));
    assert_eq!(ClipboardSelector::menu_choice(b"bad\xff\n"), Some("bad\u{FFFD}".to_string()));
}

#[test]
fn clipboard_source_for_each_kind() {
    let s = selector(vec![("fav", "favourite text")]);
    let listing = vec![
        CacheItem { timestamp: "1".to_string(), text: Some("text one".to_string()) },
        CacheItem { timestamp: "2".to_string(), text: None },
    ];
    let entries = s.load_clipboard_entries(listing);
    assert_eq!(s.clipboard_source("text one", &entries), Ok(ClipboardSource::Text("text one".to_string())));
    assert_eq!(s.clipboard_source("fav", &entries), Ok(ClipboardSource::Text("favourite text".to_string())));
    assert_eq!(
        s.clipboard_source("Binary Content @ 2", &entries),
        Ok(ClipboardSource::CacheDirectory("/cache/2".to_string()))
    );
    assert_eq!(
        s.clipboard_source("missing", &entries),
        Err(Error::Generic("Selected entry not found".to_string()))
    );
}

#[test]
fn selecting_config_new_holds_its_parts() {
    let mut favs = IndexMap::new();
    favs.insert("a".to_string(), "b".to_string());
    let c = SelectingConfig::new("/d".to_string(), "l".to_string(), vec!["--x".to_string()], favs.clone());
    assert_eq!(c.cache_dir, "/d");
    assert_eq!(c.launcher, "l");
    assert_eq!(c.launcher_args, vec!["--x".to_string()]);
    assert_eq!(c.favorites, favs);
}
