use vstd::prelude::*;
use crate::configuration::{fallback_config_path, lemma_fallback_path_names_config_file, CONFIGURATION_FILE_NAME};
use crate::error::Error;
use crate::paths::{ends_with, join_path, lemma_ends_with_transitive, lemma_join_ends_with_part, path_join};
use crate::text::{concat, text_eq, to_lowercase, unicode_lowercase};

verus! {

/// Which of the user's XDG directories is meant.
#[derive(Debug, Clone, Copy, PartialEq, Eq, Structural)]
pub enum XdgDirType {
    Config,
    Data,
    Cache,
}

/// The directory type that a lowercase word names.
pub open spec fn xdg_dir_named(word: Seq<char>) -> Option<XdgDirType> {
    if word == "config"@ {
        Some(XdgDirType::Config)
    } else if word == "data"@ {
        Some(XdgDirType::Data)
    } else if word == "cache"@ {
        Some(XdgDirType::Cache)
    } else {
        None
    }
}

/// The name of a directory type.
pub open spec fn xdg_dir_name(t: XdgDirType) -> Seq<char> {
    match t {
        XdgDirType::Config => "config"@,
        XdgDirType::Data => "data"@,
        XdgDirType::Cache => "cache"@,
    }
}

impl XdgDirType {
    /// The directory type that a lowercase word names, if any.
    pub fn from_lowercase(word: &str) -> (r: Option<XdgDirType>)
        ensures
            r == xdg_dir_named(word@),
    {
        if text_eq(word, "config") {
            Some(XdgDirType::Config)
        } else if text_eq(word, "data") {
            Some(XdgDirType::Data)
        } else if text_eq(word, "cache") {
            Some(XdgDirType::Cache)
        } else {
            None
        }
    }

    /// The directory type that `s` names in any case; `s` must name one.
    pub fn from_name(s: &str) -> (t: XdgDirType)
        requires
            xdg_dir_named(unicode_lowercase(s@)) is Some,
        ensures
            xdg_dir_named(unicode_lowercase(s@)) == Some(t),
    {
        let lower = to_lowercase(s);
        match XdgDirType::from_lowercase(lower.as_str()) {
            Some(t) => t,
            None => XdgDirType::Config,
        }
    }

    /// The directory type that `s` names in any case ("config", "data" or "cache"); a
    /// generic error naming `s` where it names none.
    pub fn from_str(s: &str) -> (r: Result<XdgDirType, Error>)
        ensures
            match xdg_dir_named(unicode_lowercase(s@)) {
                Some(t) => r == Ok::<XdgDirType, Error>(t),
                None => r matches Err(Error::Generic(m)) && m@ == "Unknown XDG directory type: "@ + s@,
            },
    {
        let lower = to_lowercase(s);
        match XdgDirType::from_lowercase(lower.as_str()) {
            Some(_) => Ok(XdgDirType::from_name(s)),
            None => Err(Error::Generic(concat("Unknown XDG directory type: ", s))),
        }
    }

    /// The name of the directory type.
    pub fn name(&self) -> (s: &'static str)
        ensures
            s@ == xdg_dir_name(*self),
    {
        match self {
            XdgDirType::Config => "config",
            XdgDirType::Data => "data",
            XdgDirType::Cache => "cache",
        }
    }
}

impl core::str::FromStr for XdgDirType {
    type Err = Error;

    fn from_str(s: &str) -> (r: Result<XdgDirType, Error>)
        ensures
            match xdg_dir_named(unicode_lowercase(s@)) {
                Some(t) => r == Ok::<XdgDirType, Error>(t),
                None => r matches Err(Error::Generic(m)) && m@ == "Unknown XDG directory type: "@ + s@,
            },
    {
        XdgDirType::from_str(s)
    }
}

/// A directory type's name, read back, is that type.
pub proof fn lemma_xdg_name_round_trip(t: XdgDirType)
    ensures
        xdg_dir_named(xdg_dir_name(t)) == Some(t),
{
    reveal_strlit("config");
    reveal_strlit("data");
    reveal_strlit("cache");
    assert("config"@.len() == 6 && "data"@.len() == 4 && "cache"@.len() == 5);
}

/// The message that the `xdg` crate gives when no home directory could be found.
pub const HOME_MISSING_MESSAGE: &'static str = "$HOME must be set";

/// The user directories that the XDG base directory lookup found, as text: the prefix
/// added under each (the program's name), and each home (none where no home could be
/// found). These are the fields of the same names of `xdg::BaseDirectories`.
#[derive(Debug, Clone, PartialEq, Eq)]
pub struct XdgHomes {
    pub user_prefix: String,
    pub config_home: Option<String>,
    pub data_home: Option<String>,
    pub cache_home: Option<String>,
}

/// A home with the prefix added, as the lookup's `get_data_home` and `get_cache_home`
/// give it.
pub open spec fn prefixed_home(home: Option<String>, prefix: Seq<char>) -> Option<Seq<char>> {
    match home {
        Some(h) => Some(path_join(h@, prefix)),
        None => None,
    }
}

/// The place of the program's file in the XDG directory of `dir_type`: the
/// configuration file under the prefixed configuration home (where the lookup's
/// `place_config_file` puts it), or the prefixed data or cache home itself.
pub open spec fn xdg_path(homes: XdgHomes, dir_type: XdgDirType) -> Option<Seq<char>> {
    match dir_type {
        XdgDirType::Config => match homes.config_home {
            Some(h) => Some(path_join(h@, path_join(homes.user_prefix@, CONFIGURATION_FILE_NAME@))),
            None => None,
        },
        XdgDirType::Data => prefixed_home(homes.data_home, homes.user_prefix@),
        XdgDirType::Cache => prefixed_home(homes.cache_home, homes.user_prefix@),
    }
}

/// The error for a directory type whose home could not be found.
pub open spec fn xdg_missing_message(dir_type: XdgDirType) -> Seq<char> {
    match dir_type {
        XdgDirType::Config => "Failed to get config directory: "@ + HOME_MISSING_MESSAGE@,
        XdgDirType::Data => "Data home directory not available"@,
        XdgDirType::Cache => "Cache home directory not available"@,
    }
}

/// A home with the prefix added, or the error `missing` where there is no home.
pub fn prefixed_dir(home: &Option<String>, prefix: &str, missing: &str) -> (r: Result<String, Error>)
    ensures
        match prefixed_home(*home, prefix@) {
            Some(p) => r matches Ok(q) && q@ == p,
            None => r matches Err(Error::Generic(m)) && m@ == missing@,
        },
{
    match home {
        Some(h) => Ok(join_path(h.as_str(), prefix)),
        None => Err(Error::Generic(missing.to_owned())),
    }
}

/// The configuration file's place as the lookup that makes its directories reported
/// it, or an error naming why it failed.
pub fn placed_config_file(placed: Result<String, String>) -> (r: Result<String, Error>)
    ensures
        match placed {
            Ok(p) => r == Ok::<String, Error>(p),
            Err(e) => r matches Err(Error::Generic(m)) && m@ == "Failed to get config directory: "@ + e@,
        },
{
    match placed {
        Ok(p) => Ok(p),
        Err(e) => Err(Error::Generic(concat("Failed to get config directory: ", e.as_str()))),
    }
}

/// The place of the program's file in one of the user's XDG directories.
pub trait ToXdgDir {
    fn to_xdg_dir(&self, dir_type: XdgDirType) -> Result<String, Error>;
}

impl ToXdgDir for XdgHomes {
    /// The configuration file under the prefixed configuration home, or the prefixed
    /// data or cache home itself; a generic error where that home could not be found.
    fn to_xdg_dir(&self, dir_type: XdgDirType) -> (r: Result<String, Error>)
        ensures
            match xdg_path(*self, dir_type) {
                Some(p) => r matches Ok(q) && q@ == p,
                None => r matches Err(Error::Generic(m)) && m@ == xdg_missing_message(dir_type),
            },
    {
        match dir_type {
            XdgDirType::Config => match &self.config_home {
                Some(h) => {
                    let inner = join_path(self.user_prefix.as_str(), CONFIGURATION_FILE_NAME);
                    Ok(join_path(h.as_str(), inner.as_str()))
                },
                None => placed_config_file(Err(HOME_MISSING_MESSAGE.to_owned())),
            },
            XdgDirType::Data => prefixed_dir(&self.data_home, self.user_prefix.as_str(), "Data home directory not available"),
            XdgDirType::Cache => prefixed_dir(&self.cache_home, self.user_prefix.as_str(), "Cache home directory not available"),
        }
    }
}

/// Wherever the configuration file is looked for, its path names a file called
/// `config.toml`: in the configuration home, or, where there is none, under the user's
/// home directory (or the current directory).
pub proof fn lemma_configuration_path_names_config_file(homes: XdgHomes, home: Option<Seq<char>>)
    ensures
        ends_with(
            match xdg_path(homes, XdgDirType::Config) {
                Some(p) => p,
                None => fallback_config_path(home),
            },
            CONFIGURATION_FILE_NAME@,
        ),
{
    reveal_strlit("config.toml");
    match homes.config_home {
        Some(h) => {
            let inner = path_join(homes.user_prefix@, CONFIGURATION_FILE_NAME@);
            lemma_join_ends_with_part(homes.user_prefix@, CONFIGURATION_FILE_NAME@);
            lemma_join_ends_with_part(h@, inner);
            lemma_ends_with_transitive(path_join(h@, inner), inner, CONFIGURATION_FILE_NAME@);
        },
        None => {
            lemma_fallback_path_names_config_file(home);
        },
    }
}

} // verus!
