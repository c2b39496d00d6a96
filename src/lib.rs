//! Selects fragments of an HTML document with a compact CSS selector syntax.
pub mod dom;
pub mod filter;
pub mod html;
pub mod parser;
pub mod renderer;
pub mod text;
