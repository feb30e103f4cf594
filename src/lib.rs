//! `shorturl`: maps long URLs to short codes and back, with a mapping that
//! can be written to and read from a TOML document.

pub mod error;
pub mod weburl;
pub mod shorturl;
pub mod database;
pub mod app;
