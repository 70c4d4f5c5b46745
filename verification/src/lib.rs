//! A fuzzy command palette for Herdr.

pub mod bindings;
pub mod dispatch;
pub mod input;
pub mod items;
pub mod json;
pub mod keyset;
pub mod laws;
pub mod layout;
pub mod matching;
pub mod palette;
pub mod paths;
pub mod render;
pub mod report;
pub mod screen;
pub mod shell;
pub mod source;
pub mod text;
pub mod tree;
