pub mod cache;
pub mod history;
