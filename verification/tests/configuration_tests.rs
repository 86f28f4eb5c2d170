use clapboard::configuration::core_settings::Core;
use clapboard::configuration::defaults::{Defaults, FALLBACK_CACHE_DIR};
use clapboard::configuration::favourites::Favourites;
use clapboard::configuration::{default_config_path, Configuration};
use clapboard::Error;

#[test]
fn test_favourites_default() {
    let favourites = Favourites::default();
    assert!(favourites.items.is_empty());
}

#[test]
fn core_default_uses_tofi_with_fifty_entries() {
    let core = Core::default();
    assert_eq!(core.launcher, "tofi");
    assert_eq!(
        core.launcher_args,
        vec!["--fuzzy-match=true".to_string(), "--prompt=Clapboard History: ".to_string()]
    );
    assert_eq!(core.history_size, 50);
}

#[test]
fn defaults_take_the_cache_dir_found() {
    let d = Defaults::from_cache_dir_lookup(Ok("/home/u/.cache/clapboard/config.toml".to_string()));
    assert_eq!(d.cache_dir, "/home/u/.cache/clapboard/config.toml");
}

#[test]
fn defaults_fall_back_to_tmp() {
    let d = Defaults::from_cache_dir_lookup(Err(Error::Generic("no home".to_string())));
    assert_eq!(d.cache_dir, "/tmp/clapboard_cache");
    assert_eq!(FALLBACK_CACHE_DIR, "/tmp/clapboard_cache");
}

#[test]
fn default_config_path_under_home() {
    assert_eq!(default_config_path(Some("/home/u".to_string())), "/home/u/.config/clapboard/config.toml");
    assert_eq!(default_config_path(Some("/home/u/".to_string())), "/home/u/.config/clapboard/config.toml");
    assert_eq!(default_config_path(None), "./.config/clapboard/config.toml");
    assert!(default_config_path(None).ends_with("config.toml"));
}

#[test]
fn config_path_prefers_the_found_file() {
    let p = Configuration::path_from_lookup(Ok("/x/config.toml".to_string()), Some("/home/u".to_string()));
    assert_eq!(p, "/x/config.toml");
    let q = Configuration::path_from_lookup(Err(Error::Generic("e".to_string())), Some("/home/u".to_string()));
    assert_eq!(q, "/home/u/.config/clapboard/config.toml");
}

#[test]
fn initial_configuration_has_defaults_and_no_favourites() {
    let c = Configuration::initial(
        "/c/config.toml".to_string(),
        Defaults { cache_dir: "/cache".to_string() },
    );
    assert_eq!(c.path, "/c/config.toml");
    assert!(c.path.ends_with("config.toml"));
    assert_eq!(c.core.launcher, "tofi");
    assert_eq!(c.core.history_size, 50);
    assert_eq!(c.defaults.cache_dir, "/cache");
    assert!(c.favourites.items.is_empty());
}
