//! A string interner: each distinct string is stored once and named by a
//! small, copyable symbol.

pub mod interner;
pub mod laws;
pub mod model;

pub use interner::{intern, intern_static, resolve, Interner, Symbol};
