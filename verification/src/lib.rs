//! Clipboard history: the change log of clipboard texts, the rule that decides
//! when a sampled text is a new entry, and the command router around both.

pub mod app;
pub mod bash_driver;
pub mod db;
pub mod error;
pub mod text;
pub mod utils;
