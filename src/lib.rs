pub mod args;
pub mod cache;
pub mod comment;
pub mod commands;
pub mod gitignore;
pub mod license;
pub mod manifest;
pub mod pattern;
pub mod placeholder;
pub mod text;
