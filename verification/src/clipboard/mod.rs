pub mod models;
pub mod monitor;
