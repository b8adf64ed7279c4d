pub mod loc;
pub mod scope;
pub mod text;
pub mod style;
pub mod ir;
pub mod ast;
pub mod token;
pub mod parser;
pub mod file_tree;
pub mod reporting;
pub mod compiler;
pub mod eval;
pub mod low;
pub mod emit;
