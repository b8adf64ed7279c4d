pub mod le;
pub mod error;
pub mod opcode;
pub mod code;
pub mod value;
pub mod data;
pub mod sections;
pub mod keys;
pub mod listing;
