pub mod config;
pub mod errors;
