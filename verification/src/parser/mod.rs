//! Model loading.

pub mod json_loader;
pub mod cto_parser;
