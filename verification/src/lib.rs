//! Layout preprocessing for an indentation-sensitive functional language,
//! position-mapped parse diagnostics, and a pseudo-procedural rendering of
//! the parsed declarations.

pub mod ast;
pub mod describe;
pub mod layout;
pub mod layout_invariants;
pub mod module;
pub mod reconcile;
pub mod render;
pub mod report;
pub mod strip;
pub mod text;
