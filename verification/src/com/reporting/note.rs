//! The notes that follow a report, with advice on how to mend the code.

use vstd::prelude::*;
use crate::com::text::{concat3, joined, texts, push_joined};

verus! {

/// A piece of advice attached to a report.
pub enum Note {
    ConsiderStage(String),
    CyclicDependencies(Vec<String>),
    RecordSyntax,
    RecordFieldSyntax,
    UnionSyntax,
    UnionVariantSyntax,
    UseSimpleRecordSyntax(String),
    UseSimpleUnionSyntax(String),
    UseConstantUnionSyntax(String),
}

/// The text of a note.
pub open spec fn note_msg(n: Note) -> Seq<char> {
    match n {
        Note::ConsiderStage(path) => "consider staging "@ + path@ + " in the compile command"@,
        Note::CyclicDependencies(deps) => "files involved in the cycle\n  "@ + joined(texts(deps@), "\n  "@),
        Note::RecordSyntax => "a record signature must have a name, and may optionally be followed by one or more arguments within parentheses"@,
        Note::RecordFieldSyntax => "a record field should be an identifier"@,
        Note::UnionSyntax => "a union signature must have a name, and may optionally be followed by one or more arguments within parentheses"@,
        Note::UnionVariantSyntax => "a union variant must have a name, and may optionally be followed by one or more arguments within parentheses"@,
        Note::UseSimpleRecordSyntax(name) => "consider removing the parentheses to make '"@ + name@ + "' a record type with no type arguments"@,
        Note::UseSimpleUnionSyntax(name) => "consider removing the parentheses to make '"@ + name@ + "' a union type with no type arguments"@,
        Note::UseConstantUnionSyntax(name) => "consider removing the parentheses to make '"@ + name@ + "' a constant union variant"@,
    }
}

impl Note {
    /// The text of this note.
    pub fn msg(&self) -> (s: String)
        ensures
            s@ == note_msg(*self),
    {
        match self {
            Note::ConsiderStage(path) => concat3("consider staging ", path.as_str(), " in the compile command"),
            Note::CyclicDependencies(deps) => {
                let mut s = String::from_str("files involved in the cycle\n  ");
                push_joined(&mut s, deps, "\n  ");
                s
            },
            Note::RecordSyntax => String::from_str("a record signature must have a name, and may optionally be followed by one or more arguments within parentheses"),
            Note::RecordFieldSyntax => String::from_str("a record field should be an identifier"),
            Note::UnionSyntax => String::from_str("a union signature must have a name, and may optionally be followed by one or more arguments within parentheses"),
            Note::UnionVariantSyntax => String::from_str("a union variant must have a name, and may optionally be followed by one or more arguments within parentheses"),
            Note::UseSimpleRecordSyntax(name) => concat3("consider removing the parentheses to make '", name.as_str(), "' a record type with no type arguments"),
            Note::UseSimpleUnionSyntax(name) => concat3("consider removing the parentheses to make '", name.as_str(), "' a union type with no type arguments"),
            Note::UseConstantUnionSyntax(name) => concat3("consider removing the parentheses to make '", name.as_str(), "' a constant union variant"),
        }
    }
}

} // verus!
