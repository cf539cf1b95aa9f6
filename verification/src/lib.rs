//! A formatter for Devicetree source files.
pub mod agreement;
pub mod config;
pub mod context;
pub mod format;
pub mod laws;
pub mod parser;
pub mod print_laws;
pub mod printer;
pub mod syntax;
pub mod text;
