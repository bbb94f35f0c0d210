//! A reading list: bookmarks with tags, the rules that read and validate what a
//! user types, the plans of database statements, and the local configuration.
pub mod text;
pub mod time;
pub mod bookmark;
pub mod config;
pub mod utils;
pub mod database;
pub mod context;
pub mod db;
pub mod cli;
pub mod autocomplete;
pub mod build_env;
