pub mod api;
pub mod config;
