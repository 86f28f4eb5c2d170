pub mod core_settings;
pub mod defaults;
pub mod favourites;

use vstd::prelude::*;
use crate::error::Error;
use crate::paths::{ends_with, join_path, lemma_join_ends_with_part, path_join};
pub use crate::configuration::core_settings::Core;
pub use crate::configuration::defaults::Defaults;
pub use crate::configuration::favourites::Favourites;

verus! {

/// The name of the configuration file.
pub const CONFIGURATION_FILE_NAME: &'static str = "config.toml";

/// The name of the program, under which its directories are found.
pub const APPLICATION_NAME: &'static str = "clapboard";

/// The program's configuration, and the file it comes from.
#[derive(Debug, Clone)]
pub struct Configuration {
    pub path: String,
    pub core: Core,
    pub defaults: Defaults,
    pub favourites: Favourites,
}

/// The place of the configuration file under the home directory `home` (the current
/// directory where there is none): `.config/clapboard/config.toml` in it.
pub open spec fn fallback_config_path(home: Option<Seq<char>>) -> Seq<char> {
    let base = match home {
        Some(h) => h,
        None => "."@,
    };
    path_join(path_join(path_join(base, ".config"@), APPLICATION_NAME@), CONFIGURATION_FILE_NAME@)
}

/// The place of the configuration file where the configuration directory cannot be
/// found, for the value of `HOME` (if set).
pub fn default_config_path(home: Option<String>) -> (p: String)
    ensures
        p@ == fallback_config_path(match home {
            Some(h) => Some(h@),
            None => None,
        }),
{
    let base = match home {
        Some(h) => h,
        None => ".".to_owned(),
    };
    let a = join_path(base.as_str(), ".config");
    let b = join_path(a.as_str(), APPLICATION_NAME);
    join_path(b.as_str(), CONFIGURATION_FILE_NAME)
}

impl Configuration {
    /// The place of the configuration file: the one found in the configuration
    /// directory, else the fallback under the home directory.
    pub fn path_from_lookup(found: Result<String, Error>, home: Option<String>) -> (p: String)
        ensures
            match found {
                Ok(f) => p == f,
                Err(_) => p@ == fallback_config_path(match home {
                    Some(h) => Some(h@),
                    None => None,
                }),
            },
    {
        match found {
            Ok(f) => f,
            Err(_) => default_config_path(home),
        }
    }

    /// The configuration that a fresh configuration file at `path` stands for: the
    /// default core settings, the given defaults, and no favourites.
    pub fn initial(path: String, defaults: Defaults) -> (c: Configuration)
        ensures
            c.path == path,
            c.core.is_default(),
            c.defaults == defaults,
            c.favourites.items@.len() == 0,
    {
        Configuration { path, core: Core::default(), defaults, favourites: Favourites::default() }
    }
}

/// The fallback place of the configuration file always names a file called
/// `config.toml`.
pub proof fn lemma_fallback_path_names_config_file(home: Option<Seq<char>>)
    ensures
        ends_with(fallback_config_path(home), CONFIGURATION_FILE_NAME@),
{
    let base = match home {
        Some(h) => h,
        None => "."@,
    };
    lemma_join_ends_with_part(
        path_join(path_join(base, ".config"@), APPLICATION_NAME@),
        CONFIGURATION_FILE_NAME@,
    );
}

} // verus!
