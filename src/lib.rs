pub mod config;
pub mod errors;
pub mod exchange;
pub mod manager;
pub mod models;
pub mod status;
pub mod stores;
pub mod validation;
pub mod wire;
