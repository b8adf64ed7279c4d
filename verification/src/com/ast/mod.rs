pub mod bin_op;
pub mod expr;
pub mod label;
pub mod pattern;
pub mod signature;
pub mod file;
pub mod span;

pub use bin_op::{BinOp, UnOp};
pub use expr::{
    Expr, Lexeme, Tuple, Array, Block, Conditional, Branch, IfBranch, WhileBranch, LoopBranch, MatchBranch,
    MatchCase, ElseBranch, Break, Skip, Call, Index, Access, Let, Pub, Fun, Alias, Import, ImportFrom,
    ImportQuery, Record, RecordValue, Union, ClassItem, Class, Have, Binary, Unary, ArrayType,
};
pub use label::{Label, NamedLabel};
pub use pattern::Pattern;
pub use signature::{Signature, TypeSignature};
pub use file::File;
