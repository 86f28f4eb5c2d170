pub mod cli;
pub mod clipboard;
pub mod configuration;
pub mod error;
pub mod filesystem;
pub mod ordered_map;
pub mod paths;
pub mod text;
pub mod xdg_dirs;

pub use crate::cli::Cli;
pub use crate::error::Error;
