pub mod clipboard;
pub mod config;
pub mod data_export;
pub mod database;
pub mod encryption;
pub mod json;
pub mod overlay;
pub mod search;
pub mod sync;
pub mod text;
pub mod tray;
