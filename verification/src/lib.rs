pub mod text;
pub mod json;
pub mod config;
pub mod stats;
pub mod keys;
pub mod app;
pub mod layout;
pub mod laws;
