//! Syntax-highlighting spans, retrieval chunks and call sites for TypeScript
//! and TSX sources, computed from tree-sitter query matches and laid out as
//! fixed-width little-endian records.

pub mod call_sites;
pub mod capture;
pub mod chunks;
pub mod layout;
pub mod queries;
pub mod scope;
pub mod spans;
pub mod state;
pub mod text;
pub mod ts;
