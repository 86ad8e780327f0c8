pub mod text;
pub mod number;
pub mod json;
pub mod sanitizer;
pub mod models;
pub mod truncator;
pub mod context;
pub mod config;
pub mod guard;
pub mod proxy;
