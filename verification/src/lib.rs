//! Debug-symbol extraction and symbol-resolution pipeline.
//!
//! The library turns the symbol declarations found in a debug-info container
//! into a deduplicated, canonical symbol table with globally disambiguated
//! names, serializes that table into a compact compressed blob, and resolves
//! configured symbol references (by name or address) together with
//! server-reported macro groupings into concrete per-profile address lists.

pub mod codec;
pub mod config;
pub mod disamb;
pub mod pdbio;
pub mod resolve;
pub mod symbols;
pub mod text;
