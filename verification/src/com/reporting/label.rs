//! The messages that annotate places in the source text of a report.

use vstd::prelude::*;
use crate::com::ir::types::{TypeString, type_text};
use crate::com::text::{concat2, concat3, decimal, push_decimal, joined, texts, push_joined};

verus! {

/// What a report says about one place in the source text.
#[derive(Clone)]
pub enum Label {
    Empty,
    ExpectedImportQuery,
    ImportedInFile(String),
    ImportedInItself(String),
    TrailingSuper,
    RedundantImportPath,
    FirstImportHere(String),
    Type(TypeString),
    ArrayItemTypes,
    ReturnValueTypes(Option<String>),
    ReturnedFromBreak(Option<String>),
    NoBreakpointFound(Option<String>),
    NoSkippointFound(Option<String>),
    UnskippableBlock(Option<String>),
    ConditionBoolType,
    ConditionalReturnValues,
    NonExhaustiveConditionalUnit,
    ExhaustiveConditionalBranches(usize),
    UnreachableConditionalBranches(usize),
    VariableDefinition(String),
    NamelessSignature,
    LetBindingPattern,
    FunctionArgPattern,
    WithinUnionDefinition(String),
    UnionTypeArgCount(String, usize),
    UnionTypeNoArgs(String),
    UnionDefinition(String),
    VariantArgCount(String, usize),
    VariantDefinition(String),
    NotAnExpression,
    NotAPattern,
    NotAType,
    WantFunctionType(TypeString),
    WithinRecordDefinition(String),
    RecordTypeArgCount(String, usize),
    RecordTypeNoArgs(String),
    RecordDefinition(String),
    NoAdmissibleRecord(usize),
    MissingFields(Vec<String>, String),
    ClassDefinition(String),
    ClassItemDefinition(String),
}

/// Each of `fields` in single quotes.
pub open spec fn quoted(fields: Seq<String>) -> Seq<Seq<char>> {
    fields.map_values(|f: String| "'"@ + f@ + "'"@)
}

/// The message for a record value that lacks some fields.
pub open spec fn missing_fields_text(fields: Seq<String>, record: Seq<char>) -> Seq<char> {
    if fields.len() == 1 {
        "record type '"@ + record + "' is missing field: '"@ + fields[0]@ + "'"@
    } else {
        "record type '"@ + record + "' is missing fields: "@ + joined(quoted(fields), ", "@)
    }
}

/// The message of a label.
pub open spec fn label_msg(l: Label) -> Seq<char> {
    match l {
        Label::Empty => ""@,
        Label::ExpectedImportQuery => "expected one or more import queries"@,
        Label::ImportedInFile(x) => "imported in file "@ + x@ + ""@,
        Label::ImportedInItself(x) => ""@ + x@ + " is imported it itself"@,
        Label::TrailingSuper => "import queries cannot end with 'super'"@,
        Label::RedundantImportPath => "this part of the import query is redundant"@,
        Label::FirstImportHere(x) => "first import of "@ + x@ + " here"@,
        Label::Type(ty) => type_text(ty.model(), false),
        Label::ArrayItemTypes => "all items in an array must be of the same type"@,
        Label::ReturnValueTypes(Some(x)) => "all values returned by label '"@ + x@ + "' must be of the same type"@,
        Label::ReturnValueTypes(None) => "all values returned at this point must be of the same type"@,
        Label::ReturnedFromBreak(None) => "this value is returned from this break expression"@,
        Label::ReturnedFromBreak(Some(x)) => "this value is returned from this break out of label '"@ + x@ + "'"@,
        Label::NoBreakpointFound(None) => "there are no control flow structures to break out of in this scope"@,
        Label::NoBreakpointFound(Some(x)) => "there are no control flow structures with label '"@ + x@ + "' to break out of in this scope"@,
        Label::NoSkippointFound(None) => "there are no control flow structures inside which to skip"@,
        Label::NoSkippointFound(Some(x)) => "there are no control flow structures with label '"@ + x@ + "' inside which to skip"@,
        Label::UnskippableBlock(None) => "cannot skip inside any current control flow structure, as none of them are loops"@,
        Label::UnskippableBlock(Some(x)) => "cannot skip inside label '"@ + x@ + "', as it is not a loop"@,
        Label::ConditionBoolType => "condition expression must be a boolean"@,
        Label::ConditionalReturnValues => "all values returned by this conditional expression must be of the same type"@,
        Label::NonExhaustiveConditionalUnit => "non-exhaustive conditional expression returns unit"@,
        Label::ExhaustiveConditionalBranches(1) => "the previous conditional branch is exhaustive"@,
        Label::ExhaustiveConditionalBranches(_) => "the previous conditional branches are exhaustive"@,
        Label::UnreachableConditionalBranches(1) => "this conditional branch is never reached"@,
        Label::UnreachableConditionalBranches(_) => "these conditional branches are never reached"@,
        Label::VariableDefinition(x) => "variable '"@ + x@ + "' is defined here"@,
        Label::NamelessSignature => "function signature has no name"@,
        Label::LetBindingPattern => "let-binding patterns must be irrefutable"@,
        Label::FunctionArgPattern => "function argument patterns must be irrefutable"@,
        Label::WithinUnionDefinition(x) => "within the definition of union type '"@ + x@ + "'"@,
        Label::UnionTypeArgCount(x, 1) => "union type '"@ + x@ + "' takes in a single argument"@,
        Label::UnionTypeArgCount(x, n) => "union type '"@ + x@ + "' takes in "@ + decimal(n as nat) + " arguments"@,
        Label::UnionTypeNoArgs(x) => "union type '"@ + x@ + "' does not take in any argument"@,
        Label::UnionDefinition(x) => "union type '"@ + x@ + "' is defined here"@,
        Label::VariantArgCount(x, 1) => "variant '"@ + x@ + "' takes in a single argument"@,
        Label::VariantArgCount(x, n) => "variant '"@ + x@ + "' takes in "@ + decimal(n as nat) + " arguments"@,
        Label::VariantDefinition(x) => "variant '"@ + x@ + "' is defined here"@,
        Label::NotAnExpression => "this is valid syntax but does not represent a value"@,
        Label::NotAPattern => "this is valid syntax but does not represent a pattern"@,
        Label::NotAType => "this is valid syntax but does not represent a type"@,
        Label::WantFunctionType(ty) => "this expression is expected to be a function of type "@ + type_text(ty.model(), false),
        Label::WithinRecordDefinition(x) => "within the definition of record type '"@ + x@ + "'"@,
        Label::RecordTypeArgCount(x, 1) => "record type '"@ + x@ + "' takes in a single argument"@,
        Label::RecordTypeArgCount(x, n) => "record type '"@ + x@ + "' takes in "@ + decimal(n as nat) + " arguments"@,
        Label::RecordTypeNoArgs(x) => "record type '"@ + x@ + "' does not take in any argument"@,
        Label::RecordDefinition(x) => "record type '"@ + x@ + "' is defined here"@,
        Label::NoAdmissibleRecord(0) => "no record type in this scope contains zero fields"@,
        Label::NoAdmissibleRecord(1) => "no record type in this scope contains this field"@,
        Label::NoAdmissibleRecord(_) => "no record type in this scope contains all these fields at the same time"@,
        Label::MissingFields(fields, record) => missing_fields_text(fields@, record@),
        Label::ClassDefinition(x) => "class '"@ + x@ + "' is defined here"@,
        Label::ClassItemDefinition(x) => "class item '"@ + x@ + "' is defined here"@,
    }
}

/// The message for a type that takes some number of arguments other than one.
fn count_msg(pre: &str, name: &String, n: usize) -> (s: String)
    ensures
        s@ == pre@ + name@ + "' takes in "@ + decimal(n as nat) + " arguments"@,
{
    let mut s = concat3(pre, name.as_str(), "' takes in ");
    push_decimal(&mut s, n);
    s.append(" arguments");
    s
}

fn missing_fields_msg(fields: &Vec<String>, record: &String) -> (s: String)
    ensures
        s@ == missing_fields_text(fields@, record@),
{
    if fields.len() == 1 {
        let mut s = concat3("record type '", record.as_str(), "' is missing field: '");
        s.append(fields[0].as_str());
        s.append("'");
        s
    } else {
        let mut q: Vec<String> = Vec::new();
        let mut i: usize = 0;
        while i < fields.len()
            invariant
                0 <= i <= fields.len(),
                q@.len() == i,
                texts(q@) == quoted(fields@.subrange(0, i as int)),
            decreases fields.len() - i,
        {
            let ghost before = q@;
            q.push(concat3("'", fields[i].as_str(), "'"));
            proof {
                assert forall|j: int| 0 <= j < i + 1 implies #[trigger] texts(q@)[j]
                    == quoted(fields@.subrange(0, i + 1))[j] by {
                    if j < i {
                        assert(q@[j] == before[j]);
                        assert(texts(before)[j] == quoted(fields@.subrange(0, i as int))[j]);
                    }
                }
                assert(texts(q@) =~= quoted(fields@.subrange(0, i + 1)));
            }
            i = i + 1;
        }
        proof {
            assert(fields@.subrange(0, fields.len() as int) =~= fields@);
        }
        let mut s = concat3("record type '", record.as_str(), "' is missing fields: ");
        push_joined(&mut s, &q, ", ");
        s
    }
}

impl Label {
    /// The message of this label.
    pub fn msg(&self) -> (s: String)
        ensures
            s@ == label_msg(*self),
    {
        match self {
            Label::Empty => String::from_str(""),
            Label::ExpectedImportQuery => String::from_str("expected one or more import queries"),
            Label::ImportedInFile(x) => concat3("imported in file ", x.as_str(), ""),
            Label::ImportedInItself(x) => concat3("", x.as_str(), " is imported it itself"),
            Label::TrailingSuper => String::from_str("import queries cannot end with 'super'"),
            Label::RedundantImportPath => String::from_str("this part of the import query is redundant"),
            Label::FirstImportHere(x) => concat3("first import of ", x.as_str(), " here"),
            Label::Type(ty) => ty.to_text(),
            Label::ArrayItemTypes => String::from_str("all items in an array must be of the same type"),
            Label::ReturnValueTypes(Some(x)) => concat3("all values returned by label '", x.as_str(), "' must be of the same type"),
            Label::ReturnValueTypes(None) => String::from_str("all values returned at this point must be of the same type"),
            Label::ReturnedFromBreak(None) => String::from_str("this value is returned from this break expression"),
            Label::ReturnedFromBreak(Some(x)) => concat3("this value is returned from this break out of label '", x.as_str(), "'"),
            Label::NoBreakpointFound(None) => String::from_str("there are no control flow structures to break out of in this scope"),
            Label::NoBreakpointFound(Some(x)) => concat3("there are no control flow structures with label '", x.as_str(), "' to break out of in this scope"),
            Label::NoSkippointFound(None) => String::from_str("there are no control flow structures inside which to skip"),
            Label::NoSkippointFound(Some(x)) => concat3("there are no control flow structures with label '", x.as_str(), "' inside which to skip"),
            Label::UnskippableBlock(None) => String::from_str("cannot skip inside any current control flow structure, as none of them are loops"),
            Label::UnskippableBlock(Some(x)) => concat3("cannot skip inside label '", x.as_str(), "', as it is not a loop"),
            Label::ConditionBoolType => String::from_str("condition expression must be a boolean"),
            Label::ConditionalReturnValues => String::from_str("all values returned by this conditional expression must be of the same type"),
            Label::NonExhaustiveConditionalUnit => String::from_str("non-exhaustive conditional expression returns unit"),
            Label::ExhaustiveConditionalBranches(1) => String::from_str("the previous conditional branch is exhaustive"),
            Label::ExhaustiveConditionalBranches(_) => String::from_str("the previous conditional branches are exhaustive"),
            Label::UnreachableConditionalBranches(1) => String::from_str("this conditional branch is never reached"),
            Label::UnreachableConditionalBranches(_) => String::from_str("these conditional branches are never reached"),
            Label::VariableDefinition(x) => concat3("variable '", x.as_str(), "' is defined here"),
            Label::NamelessSignature => String::from_str("function signature has no name"),
            Label::LetBindingPattern => String::from_str("let-binding patterns must be irrefutable"),
            Label::FunctionArgPattern => String::from_str("function argument patterns must be irrefutable"),
            Label::WithinUnionDefinition(x) => concat3("within the definition of union type '", x.as_str(), "'"),
            Label::UnionTypeArgCount(x, 1) => concat3("union type '", x.as_str(), "' takes in a single argument"),
            Label::UnionTypeArgCount(x, n) => count_msg("union type '", x, *n),
            Label::UnionTypeNoArgs(x) => concat3("union type '", x.as_str(), "' does not take in any argument"),
            Label::UnionDefinition(x) => concat3("union type '", x.as_str(), "' is defined here"),
            Label::VariantArgCount(x, 1) => concat3("variant '", x.as_str(), "' takes in a single argument"),
            Label::VariantArgCount(x, n) => count_msg("variant '", x, *n),
            Label::VariantDefinition(x) => concat3("variant '", x.as_str(), "' is defined here"),
            Label::NotAnExpression => String::from_str("this is valid syntax but does not represent a value"),
            Label::NotAPattern => String::from_str("this is valid syntax but does not represent a pattern"),
            Label::NotAType => String::from_str("this is valid syntax but does not represent a type"),
            Label::WantFunctionType(ty) => concat2("this expression is expected to be a function of type ", ty.to_text().as_str()),
            Label::WithinRecordDefinition(x) => concat3("within the definition of record type '", x.as_str(), "'"),
            Label::RecordTypeArgCount(x, 1) => concat3("record type '", x.as_str(), "' takes in a single argument"),
            Label::RecordTypeArgCount(x, n) => count_msg("record type '", x, *n),
            Label::RecordTypeNoArgs(x) => concat3("record type '", x.as_str(), "' does not take in any argument"),
            Label::RecordDefinition(x) => concat3("record type '", x.as_str(), "' is defined here"),
            Label::NoAdmissibleRecord(0) => String::from_str("no record type in this scope contains zero fields"),
            Label::NoAdmissibleRecord(1) => String::from_str("no record type in this scope contains this field"),
            Label::NoAdmissibleRecord(_) => String::from_str("no record type in this scope contains all these fields at the same time"),
            Label::MissingFields(fields, record) => missing_fields_msg(fields, record),
            Label::ClassDefinition(x) => concat3("class '", x.as_str(), "' is defined here"),
            Label::ClassItemDefinition(x) => concat3("class item '", x.as_str(), "' is defined here"),
        }
    }
}

} // verus!
