pub mod config;
pub mod task;
pub mod laws;
pub mod filesystem;
pub mod plan;
pub mod loader;
