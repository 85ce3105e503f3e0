pub mod commands;
pub mod config;
pub mod document;
pub mod serialize;
pub mod topology;
pub mod validate;
