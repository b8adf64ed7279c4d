//! The Marin compiler's core: source locations, scopes, diagnostics text,
//! typing data and the bytecode file format, with their contracts.

pub mod binary;
pub mod com;
