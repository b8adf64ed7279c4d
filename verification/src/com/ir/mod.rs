pub mod builtin;
pub mod entity;
pub mod expr;
pub mod file;
pub mod fun;
pub mod label;
pub mod pattern;
pub mod types;

pub use builtin::Builtin;
pub use entity::{
    EntityID, AnyID, VariableID, UserTypeID, RecordID, UnionID, ClassID, InstanceID, ImportID, AliasID, Entities,
    VariableInfo, UserTypeInfo, RecordInfo, RecordArgInfo, RecordFieldInfo, UnionInfo, UnionArgInfo, VariantInfo,
    ClassInfo, ClassItemInfo, InstanceInfo, ImportInfo, AliasInfo,
};
pub use expr::{CheckedExpr, Expr, Stmt, Branch, Decision, Signature, PathQuery};
pub use file::Module;
pub use fun::FunInfo;
pub use label::{LabelID, Label};
pub use pattern::{Pattern, Constructor};
pub use types::{
    TypeID, TypeNode, Scheme, InstanceScheme, Constraint, Type, TypeString, ConstraintString, SchemeString,
    InstanceSchemeString, TypeProvenance,
};
