use vstd::prelude::*;

verus! {

/// What can go wrong when reading a bytecode file.
#[derive(Debug, Clone, Copy, PartialEq, Eq, Structural)]
pub enum Error {
    /// The file does not start with the expected magic bytes.
    MagicMismatch,
    /// A byte that names no opcode stands where an opcode is expected.
    IllegalOpcode(u8),
    /// A byte that names no kind of value stands where a value is expected.
    IllegalValue,
    /// The data ends before the item being read does.
    IO,
    /// A string's bytes are not valid UTF-8.
    Utf8,
}

pub type Result<T> = core::result::Result<T, Error>;

} // verus!
