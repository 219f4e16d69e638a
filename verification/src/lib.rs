pub mod cache;
pub mod cli;
pub mod config;
pub mod detect;
pub mod paths;
pub mod render;
pub mod text;
pub mod theme;
