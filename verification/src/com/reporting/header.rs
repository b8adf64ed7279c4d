//! The headline of each kind of report: a short code name and a message.

use vstd::prelude::*;
use crate::com::ir::types::{TypeString, ConstraintString, type_text, constraint_text};
use crate::com::text::{concat3, concat4, concat5, decimal, push_decimal};
use crate::com::token::{Token, token_text};

verus! {

/// What a report is about.
pub enum Header {
    Internal(String),
    CompilerNoInput(),
    CompilerNoSuchPath(String),
    CompilerBadExtension(String),
    CompilerIO(String, String),
    InvalidDependencyPath(),
    NoSuchDependency(String),
    UnstagedDependency(String),
    SelfDependency(String),
    DependencyCycle(),
    OutsideDependency(),
    InvalidCharacterSequence(String),
    ExpectedToken(Token, Token),
    ExpectedExpression(),
    ExpectedTypeAnnotation(Token),
    EmptyImport(),
    InvalidImportQuery(),
    RedundantSuper(),
    FileReimported(String),
    InvalidInteger(),
    InvalidFloat(),
    InvalidExpression(),
    InvalidAccessor(),
    InvalidType(),
    InvalidTypeArg(),
    InvalidPattern(),
    InvalidSignature(),
    InvalidTypeSignature(),
    InvalidTypeAnnotation(),
    InvalidLabel(),
    InvalidField(),
    InvalidBreak(Option<String>),
    InvalidSkip(Option<String>),
    UnallowedSignatureName(),
    UnknownVariable(String),
    UnknownBinding(String),
    UnknownType(String),
    UnknownVariant(String, String),
    UnknownClassItem(String, String),
    NotVariable(String),
    NotType(String),
    TypeMismatch(TypeString, TypeString),
    UnreachableConditionalBranches(usize),
    RefutablePattern(),
    UnionNoArgs(String),
    UnionVariantNoArgs(String),
    IncompleteType(),
    IncompleteVariant(String),
    IncorrectVariantArgs(String),
    IncorrectVariantArgCount(String, usize, usize),
    RecordNoArgs(String),
    UnionArgMismatch(String),
    RecordArgMismatch(String),
    NoAdmissibleRecords(),
    AmbiguousRecord(),
    UninitializedFields(String),
    UnmatchedFields(String),
    RequiredFieldValue(),
    ClassNoArgs(String),
    UninstantiatedItems(String),
    UnsatisfiedContraint(ConstraintString),
    AmbiguousConstraintSolution(ConstraintString),
    DisallowedPub(),
    ExpressionAlias(),
}

/// The code name of a report's kind.
pub open spec fn header_name(h: Header) -> Seq<char> {
    match h {
        Header::Internal(..) => "internal"@,
        Header::CompilerNoInput(..) => "compiler_no_input"@,
        Header::CompilerNoSuchPath(..) => "compiler_no_such_path"@,
        Header::CompilerBadExtension(..) => "compiler_bad_extension"@,
        Header::CompilerIO(..) => "compiler_io"@,
        Header::InvalidDependencyPath(..) => "invalid_dependency_path"@,
        Header::NoSuchDependency(..) => "no_such_dependency"@,
        Header::UnstagedDependency(..) => "unstaged_dependency"@,
        Header::SelfDependency(..) => "self_dependency"@,
        Header::DependencyCycle(..) => "dependency_cycle"@,
        Header::OutsideDependency(..) => "outside_dependency"@,
        Header::InvalidCharacterSequence(..) => "invalid_character_sequence"@,
        Header::ExpectedToken(..) => "expected_token"@,
        Header::ExpectedExpression(..) => "expected_expression"@,
        Header::ExpectedTypeAnnotation(..) => "expected_type_annotation"@,
        Header::EmptyImport(..) => "empty_import"@,
        Header::InvalidImportQuery(..) => "invalid_import_query"@,
        Header::RedundantSuper(..) => "redundant_super"@,
        Header::FileReimported(..) => "file_reimported"@,
        Header::InvalidInteger(..) => "invalid_integer"@,
        Header::InvalidFloat(..) => "invalid_float"@,
        Header::InvalidExpression(..) => "invalid_expression"@,
        Header::InvalidAccessor(..) => "invalid_accessor"@,
        Header::InvalidType(..) => "invalid_type"@,
        Header::InvalidTypeArg(..) => "invalid_type_arg"@,
        Header::InvalidPattern(..) => "invalid_pattern"@,
        Header::InvalidSignature(..) => "invalid_signature"@,
        Header::InvalidTypeSignature(..) => "invalid_type_signature"@,
        Header::InvalidTypeAnnotation(..) => "invalid_type_annotation"@,
        Header::InvalidLabel(..) => "invalid_label"@,
        Header::InvalidField(..) => "invalid_field"@,
        Header::InvalidBreak(..) => "invalid_break"@,
        Header::InvalidSkip(..) => "invalid_skip"@,
        Header::UnallowedSignatureName(..) => "unallowed_signature_name"@,
        Header::UnknownVariable(..) => "unknown_variable"@,
        Header::UnknownBinding(..) => "unknown_binding"@,
        Header::UnknownType(..) => "unknown_type"@,
        Header::UnknownVariant(..) => "unknown_variant"@,
        Header::UnknownClassItem(..) => "unknown_class_item"@,
        Header::NotVariable(..) => "not_variable"@,
        Header::NotType(..) => "not_type"@,
        Header::TypeMismatch(..) => "type_mismatch"@,
        Header::UnreachableConditionalBranches(..) => "unreachable_conditional_branches"@,
        Header::RefutablePattern(..) => "refutable_pattern"@,
        Header::UnionNoArgs(..) => "union_no_args"@,
        Header::UnionVariantNoArgs(..) => "union_variant_no_args"@,
        Header::IncompleteType(..) => "incomplete_type"@,
        Header::IncompleteVariant(..) => "incomplete_variant"@,
        Header::IncorrectVariantArgs(..) => "incorrect_variant_args"@,
        Header::IncorrectVariantArgCount(..) => "incorrect_variant_arg_count"@,
        Header::RecordNoArgs(..) => "record_no_args"@,
        Header::UnionArgMismatch(..) => "union_arg_mismatch"@,
        Header::RecordArgMismatch(..) => "record_arg_mismatch"@,
        Header::NoAdmissibleRecords(..) => "no_admissible_records"@,
        Header::AmbiguousRecord(..) => "ambiguous_record"@,
        Header::UninitializedFields(..) => "uninitialized_fields"@,
        Header::UnmatchedFields(..) => "unmatched_fields"@,
        Header::RequiredFieldValue(..) => "required_fields_value"@,
        Header::ClassNoArgs(..) => "class_no_args"@,
        Header::UninstantiatedItems(..) => "uninstantiated_items"@,
        Header::UnsatisfiedContraint(..) => "unsatisfied_contraint"@,
        Header::AmbiguousConstraintSolution(..) => "ambiguous_constraint_solution"@,
        Header::DisallowedPub(..) => "disallowed_pub"@,
        Header::ExpressionAlias(..) => "expression_alias"@,
    }
}

/// Which kind of report `h` is: the position of its variant among the
/// variants of `Header`, whatever its payload.
pub open spec fn header_kind(h: Header) -> nat {
    match h {
        Header::Internal(..) => 0,
        Header::CompilerNoInput(..) => 1,
        Header::CompilerNoSuchPath(..) => 2,
        Header::CompilerBadExtension(..) => 3,
        Header::CompilerIO(..) => 4,
        Header::InvalidDependencyPath(..) => 5,
        Header::NoSuchDependency(..) => 6,
        Header::UnstagedDependency(..) => 7,
        Header::SelfDependency(..) => 8,
        Header::DependencyCycle(..) => 9,
        Header::OutsideDependency(..) => 10,
        Header::InvalidCharacterSequence(..) => 11,
        Header::ExpectedToken(..) => 12,
        Header::ExpectedExpression(..) => 13,
        Header::ExpectedTypeAnnotation(..) => 14,
        Header::EmptyImport(..) => 15,
        Header::InvalidImportQuery(..) => 16,
        Header::RedundantSuper(..) => 17,
        Header::FileReimported(..) => 18,
        Header::InvalidInteger(..) => 19,
        Header::InvalidFloat(..) => 20,
        Header::InvalidExpression(..) => 21,
        Header::InvalidAccessor(..) => 22,
        Header::InvalidType(..) => 23,
        Header::InvalidTypeArg(..) => 24,
        Header::InvalidPattern(..) => 25,
        Header::InvalidSignature(..) => 26,
        Header::InvalidTypeSignature(..) => 27,
        Header::InvalidTypeAnnotation(..) => 28,
        Header::InvalidLabel(..) => 29,
        Header::InvalidField(..) => 30,
        Header::InvalidBreak(..) => 31,
        Header::InvalidSkip(..) => 32,
        Header::UnallowedSignatureName(..) => 33,
        Header::UnknownVariable(..) => 34,
        Header::UnknownBinding(..) => 35,
        Header::UnknownType(..) => 36,
        Header::UnknownVariant(..) => 37,
        Header::UnknownClassItem(..) => 38,
        Header::NotVariable(..) => 39,
        Header::NotType(..) => 40,
        Header::TypeMismatch(..) => 41,
        Header::UnreachableConditionalBranches(..) => 42,
        Header::RefutablePattern(..) => 43,
        Header::UnionNoArgs(..) => 44,
        Header::UnionVariantNoArgs(..) => 45,
        Header::IncompleteType(..) => 46,
        Header::IncompleteVariant(..) => 47,
        Header::IncorrectVariantArgs(..) => 48,
        Header::IncorrectVariantArgCount(..) => 49,
        Header::RecordNoArgs(..) => 50,
        Header::UnionArgMismatch(..) => 51,
        Header::RecordArgMismatch(..) => 52,
        Header::NoAdmissibleRecords(..) => 53,
        Header::AmbiguousRecord(..) => 54,
        Header::UninitializedFields(..) => 55,
        Header::UnmatchedFields(..) => 56,
        Header::RequiredFieldValue(..) => 57,
        Header::ClassNoArgs(..) => 58,
        Header::UninstantiatedItems(..) => 59,
        Header::UnsatisfiedContraint(..) => 60,
        Header::AmbiguousConstraintSolution(..) => 61,
        Header::DisallowedPub(..) => 62,
        Header::ExpressionAlias(..) => 63,
    }
}

/// Whether `c` may stand in a code name: a lowercase ASCII letter or `_`.
pub open spec fn code_char(c: char) -> bool {
    ('a' <= c && c <= 'z') || c == '_'
}

/// The code name of a report depends on its kind alone, never on its
/// payload; two kinds never share a code name; and each code name is a
/// non-empty run of lowercase ASCII letters and underscores.
pub proof fn lemma_header_codes(h1: Header, h2: Header)
    ensures
        header_kind(h1) == header_kind(h2) <==> header_name(h1) == header_name(h2),
        header_name(h1).len() > 0,
        forall|i: int| 0 <= i < header_name(h1).len() ==> code_char(#[trigger] header_name(h1)[i]),
{
    reveal_strlit("internal");
    reveal_strlit("compiler_no_input");
    reveal_strlit("compiler_no_such_path");
    reveal_strlit("compiler_bad_extension");
    reveal_strlit("compiler_io");
    reveal_strlit("invalid_dependency_path");
    reveal_strlit("no_such_dependency");
    reveal_strlit("unstaged_dependency");
    reveal_strlit("self_dependency");
    reveal_strlit("dependency_cycle");
    reveal_strlit("outside_dependency");
    reveal_strlit("invalid_character_sequence");
    reveal_strlit("expected_token");
    reveal_strlit("expected_expression");
    reveal_strlit("expected_type_annotation");
    reveal_strlit("empty_import");
    reveal_strlit("invalid_import_query");
    reveal_strlit("redundant_super");
    reveal_strlit("file_reimported");
    reveal_strlit("invalid_integer");
    reveal_strlit("invalid_float");
    reveal_strlit("invalid_expression");
    reveal_strlit("invalid_accessor");
    reveal_strlit("invalid_type");
    reveal_strlit("invalid_type_arg");
    reveal_strlit("invalid_pattern");
    reveal_strlit("invalid_signature");
    reveal_strlit("invalid_type_signature");
    reveal_strlit("invalid_type_annotation");
    reveal_strlit("invalid_label");
    reveal_strlit("invalid_field");
    reveal_strlit("invalid_break");
    reveal_strlit("invalid_skip");
    reveal_strlit("unallowed_signature_name");
    reveal_strlit("unknown_variable");
    reveal_strlit("unknown_binding");
    reveal_strlit("unknown_type");
    reveal_strlit("unknown_variant");
    reveal_strlit("unknown_class_item");
    reveal_strlit("not_variable");
    reveal_strlit("not_type");
    reveal_strlit("type_mismatch");
    reveal_strlit("unreachable_conditional_branches");
    reveal_strlit("refutable_pattern");
    reveal_strlit("union_no_args");
    reveal_strlit("union_variant_no_args");
    reveal_strlit("incomplete_type");
    reveal_strlit("incomplete_variant");
    reveal_strlit("incorrect_variant_args");
    reveal_strlit("incorrect_variant_arg_count");
    reveal_strlit("record_no_args");
    reveal_strlit("union_arg_mismatch");
    reveal_strlit("record_arg_mismatch");
    reveal_strlit("no_admissible_records");
    reveal_strlit("ambiguous_record");
    reveal_strlit("uninitialized_fields");
    reveal_strlit("unmatched_fields");
    reveal_strlit("required_fields_value");
    reveal_strlit("class_no_args");
    reveal_strlit("uninstantiated_items");
    reveal_strlit("unsatisfied_contraint");
    reveal_strlit("ambiguous_constraint_solution");
    reveal_strlit("disallowed_pub");
    reveal_strlit("expression_alias");
    // Two equal names agree at each place; naming the places up to the
    // longest code lets the prover compare the codes character by character.
    let a = header_name(h1);
    let b = header_name(h2);
    if a == b {
        assert(a.len() == b.len());
        assert(a[0] == b[0]);
        assert(a[1] == b[1]);
        assert(a[2] == b[2]);
        assert(a[3] == b[3]);
        assert(a[4] == b[4]);
        assert(a[5] == b[5]);
        assert(a[6] == b[6]);
        assert(a[7] == b[7]);
        assert(a[8] == b[8]);
        assert(a[9] == b[9]);
        assert(a[10] == b[10]);
        assert(a[11] == b[11]);
        assert(a[12] == b[12]);
        assert(a[13] == b[13]);
        assert(a[14] == b[14]);
        assert(a[15] == b[15]);
        assert(a[16] == b[16]);
        assert(a[17] == b[17]);
        assert(a[18] == b[18]);
        assert(a[19] == b[19]);
        assert(a[20] == b[20]);
        assert(a[21] == b[21]);
        assert(a[22] == b[22]);
        assert(a[23] == b[23]);
        assert(a[24] == b[24]);
        assert(a[25] == b[25]);
        assert(a[26] == b[26]);
        assert(a[27] == b[27]);
        assert(a[28] == b[28]);
        assert(a[29] == b[29]);
        assert(a[30] == b[30]);
        assert(a[31] == b[31]);
        assert(a[32] == b[32]);
    }
}

/// The message of a report.
pub open spec fn header_msg(h: Header) -> Seq<char> {
    match h {
        Header::Internal(msg) => msg@,
        Header::CompilerNoInput() => "no input file"@,
        Header::CompilerNoSuchPath(x) => "path '"@ + x@ + "' does not exist"@,
        Header::CompilerBadExtension(x) => "the file located at '"@ + x@ + "' is not a .mar source file"@,
        Header::CompilerIO(path, msg) => "failed to read file '"@ + path@ + ": "@ + msg@,
        Header::InvalidDependencyPath() => "invalid dependency path in import query"@,
        Header::NoSuchDependency(x) => "file dependency '"@ + x@ + "' does not exist"@,
        Header::UnstagedDependency(x) => "file dependency '"@ + x@ + "' is unstaged"@,
        Header::SelfDependency(x) => "file "@ + x@ + " imports itself"@,
        Header::DependencyCycle() => "detected a dependency cycle"@,
        Header::OutsideDependency() => "import query leads outside of the working directory"@,
        Header::InvalidCharacterSequence(x) => "invalid characters '"@ + x@ + "'"@,
        Header::ExpectedToken(want, have) => "expected "@ + token_text(want) + ", encountered "@ + token_text(have) + " instead"@,
        Header::ExpectedExpression() => "expected an expression"@,
        Header::ExpectedTypeAnnotation(have) => "expected a type annotation starting with "@ + token_text(Token::Colon) + ", or a function return type annotation with "@ + token_text(Token::Maps) + ", encountered "@ + token_text(have) + " instead"@,
        Header::EmptyImport() => "empty import expression"@,
        Header::InvalidImportQuery() => "invalid import query syntax"@,
        Header::RedundantSuper() => "redundant use of the 'super' path"@,
        Header::FileReimported(x) => "file "@ + x@ + " is imported again"@,
        Header::InvalidInteger() => "invalid integer literal"@,
        Header::InvalidFloat() => "invalid float literal"@,
        Header::InvalidExpression() => "invalid expression syntax"@,
        Header::InvalidAccessor() => "invalid accessor expression syntax"@,
        Header::InvalidType() => "invalid type syntax"@,
        Header::InvalidTypeArg() => "invalid type argument syntax"@,
        Header::InvalidPattern() => "invalid pattern syntax"@,
        Header::InvalidSignature() => "invalid signature syntax"@,
        Header::InvalidTypeSignature() => "invalid type signature syntax"@,
        Header::InvalidTypeAnnotation() => "invalid type annotation syntax"@,
        Header::InvalidLabel() => "invalid label syntax"@,
        Header::InvalidField() => "invalid record field syntax"@,
        Header::InvalidBreak(None) => "invalid break"@,
        Header::InvalidBreak(Some(name)) => "invalid break to label '"@ + name@ + "'"@,
        Header::InvalidSkip(None) => "invalid Skip"@,
        Header::InvalidSkip(Some(name)) => "invalid skip in label '"@ + name@ + "'"@,
        Header::UnallowedSignatureName() => "unallowed signature name"@,
        Header::UnknownVariable(x) => "unknown variable '"@ + x@ + "' in the current scope"@,
        Header::UnknownBinding(x) => "unknown binding '"@ + x@ + "' in the current scope"@,
        Header::UnknownType(x) => "unknown type '"@ + x@ + "' in the current scope"@,
        Header::UnknownVariant(name, union_name) => "unknown variant '"@ + name@ + "' in union type '"@ + union_name@ + "'"@,
        Header::UnknownClassItem(name, class_name) => "unknown item '"@ + name@ + "' in class '"@ + class_name@ + "'"@,
        Header::NotVariable(x) => "identifier '"@ + x@ + "' does not refer to a variable in the current scope"@,
        Header::NotType(x) => "identifier '"@ + x@ + "' does not refer to a type in the current scope"@,
        Header::TypeMismatch(left, right) => "type mismatch between "@ + type_text(left.model(), false) + " and "@ + type_text(right.model(), false),
        Header::UnreachableConditionalBranches(1) => "unreachable conditional branch"@,
        Header::UnreachableConditionalBranches(_) => "unreachable conditional branches"@,
        Header::RefutablePattern() => "refutable pattern"@,
        Header::UnionNoArgs(x) => "non-constant union type '"@ + x@ + "' has no arguments"@,
        Header::UnionVariantNoArgs(x) => "non-constant union variant '"@ + x@ + "' has no arguments"@,
        Header::IncompleteType() => "incomplete type expression"@,
        Header::IncompleteVariant(x) => "variant pattern '"@ + x@ + "' is incomplete"@,
        Header::IncorrectVariantArgs(x) => "variant '"@ + x@ + "' takes no arguments"@,
        Header::IncorrectVariantArgCount(name, 1, have) => "variant '"@ + name@ + "' takes a single argument, but received "@ + decimal(have as nat),
        Header::IncorrectVariantArgCount(name, want, 1) => "variant '"@ + name@ + "' takes "@ + decimal(want as nat) + " arguments, but received only one"@,
        Header::IncorrectVariantArgCount(name, want, have) => "variant '"@ + name@ + "' takes "@ + decimal(want as nat) + " arguments, but received "@ + decimal(have as nat),
        Header::RecordNoArgs(x) => "non-constant record type '"@ + x@ + "' has no arguments"@,
        Header::UnionArgMismatch(x) => "invalid number of arguments provided into union type '"@ + x@ + "'"@,
        Header::RecordArgMismatch(x) => "invalid number of arguments provided into record type '"@ + x@ + "'"@,
        Header::NoAdmissibleRecords() => "no admissible record type in the current scope"@,
        Header::AmbiguousRecord() => "ambiguous record type for given fields"@,
        Header::UninitializedFields(x) => "record type '"@ + x@ + "' is not fully initialized"@,
        Header::UnmatchedFields(x) => "record type '"@ + x@ + "' is not fully matched"@,
        Header::RequiredFieldValue() => "record field requires a value to be initialized"@,
        Header::ClassNoArgs(x) => "class '"@ + x@ + "' has no type arguments"@,
        Header::UninstantiatedItems(x) => "instantiation of class '"@ + x@ + "' is incomplete"@,
        Header::UnsatisfiedContraint(c) => "unsatisfied constraint ["@ + constraint_text(c.model()) + "]"@,
        Header::AmbiguousConstraintSolution(c) => "ambiguous solution for constraint ["@ + constraint_text(c.model()) + "]"@,
        Header::DisallowedPub() => "disallowed usage of the 'pub' access modifier"@,
        Header::ExpressionAlias() => "disallowed usage of 'alias' for an expression"@,
    }
}

/// The message for a missing type annotation.
fn expected_type_annotation_msg(have: Token) -> (s: String)
    ensures
        s@ == "expected a type annotation starting with "@ + token_text(Token::Colon)
            + ", or a function return type annotation with "@ + token_text(Token::Maps)
            + ", encountered "@ + token_text(have) + " instead"@,
{
    let mut s = concat5(
        "expected a type annotation starting with ",
        Token::Colon.text(),
        ", or a function return type annotation with ",
        Token::Maps.text(),
        ", encountered ",
    );
    s.append(have.text());
    s.append(" instead");
    s
}

/// The message for a variant given the wrong number of arguments.
fn arg_count_msg(name: &String, want: usize, have: usize) -> (s: String)
    ensures
        want == 1 ==> s@ == "variant '"@ + name@ + "' takes a single argument, but received "@ + decimal(have as nat),
        want != 1 && have == 1 ==> s@ == "variant '"@ + name@ + "' takes "@ + decimal(want as nat)
            + " arguments, but received only one"@,
        want != 1 && have != 1 ==> s@ == "variant '"@ + name@ + "' takes "@ + decimal(want as nat)
            + " arguments, but received "@ + decimal(have as nat),
{
    let mut s = concat3("variant '", name.as_str(), "' takes ");
    if want == 1 {
        s.append("a single argument, but received ");
        push_decimal(&mut s, have);
        proof {
            reveal_strlit("' takes ");
            reveal_strlit("a single argument, but received ");
            reveal_strlit("' takes a single argument, but received ");
            assert("' takes "@ + "a single argument, but received "@ =~= "' takes a single argument, but received "@);
        }
    } else {
        push_decimal(&mut s, want);
        if have == 1 {
            s.append(" arguments, but received only one");
        } else {
            s.append(" arguments, but received ");
            push_decimal(&mut s, have);
        }
    }
    s
}

impl Header {
    /// The code name of this report's kind.
    pub fn name(&self) -> (s: &'static str)
        ensures
            s@ == header_name(*self),
    {
        match self {
            Header::Internal(..) => "internal",
            Header::CompilerNoInput(..) => "compiler_no_input",
            Header::CompilerNoSuchPath(..) => "compiler_no_such_path",
            Header::CompilerBadExtension(..) => "compiler_bad_extension",
            Header::CompilerIO(..) => "compiler_io",
            Header::InvalidDependencyPath(..) => "invalid_dependency_path",
            Header::NoSuchDependency(..) => "no_such_dependency",
            Header::UnstagedDependency(..) => "unstaged_dependency",
            Header::SelfDependency(..) => "self_dependency",
            Header::DependencyCycle(..) => "dependency_cycle",
            Header::OutsideDependency(..) => "outside_dependency",
            Header::InvalidCharacterSequence(..) => "invalid_character_sequence",
            Header::ExpectedToken(..) => "expected_token",
            Header::ExpectedExpression(..) => "expected_expression",
            Header::ExpectedTypeAnnotation(..) => "expected_type_annotation",
            Header::EmptyImport(..) => "empty_import",
            Header::InvalidImportQuery(..) => "invalid_import_query",
            Header::RedundantSuper(..) => "redundant_super",
            Header::FileReimported(..) => "file_reimported",
            Header::InvalidInteger(..) => "invalid_integer",
            Header::InvalidFloat(..) => "invalid_float",
            Header::InvalidExpression(..) => "invalid_expression",
            Header::InvalidAccessor(..) => "invalid_accessor",
            Header::InvalidType(..) => "invalid_type",
            Header::InvalidTypeArg(..) => "invalid_type_arg",
            Header::InvalidPattern(..) => "invalid_pattern",
            Header::InvalidSignature(..) => "invalid_signature",
            Header::InvalidTypeSignature(..) => "invalid_type_signature",
            Header::InvalidTypeAnnotation(..) => "invalid_type_annotation",
            Header::InvalidLabel(..) => "invalid_label",
            Header::InvalidField(..) => "invalid_field",
            Header::InvalidBreak(..) => "invalid_break",
            Header::InvalidSkip(..) => "invalid_skip",
            Header::UnallowedSignatureName(..) => "unallowed_signature_name",
            Header::UnknownVariable(..) => "unknown_variable",
            Header::UnknownBinding(..) => "unknown_binding",
            Header::UnknownType(..) => "unknown_type",
            Header::UnknownVariant(..) => "unknown_variant",
            Header::UnknownClassItem(..) => "unknown_class_item",
            Header::NotVariable(..) => "not_variable",
            Header::NotType(..) => "not_type",
            Header::TypeMismatch(..) => "type_mismatch",
            Header::UnreachableConditionalBranches(..) => "unreachable_conditional_branches",
            Header::RefutablePattern(..) => "refutable_pattern",
            Header::UnionNoArgs(..) => "union_no_args",
            Header::UnionVariantNoArgs(..) => "union_variant_no_args",
            Header::IncompleteType(..) => "incomplete_type",
            Header::IncompleteVariant(..) => "incomplete_variant",
            Header::IncorrectVariantArgs(..) => "incorrect_variant_args",
            Header::IncorrectVariantArgCount(..) => "incorrect_variant_arg_count",
            Header::RecordNoArgs(..) => "record_no_args",
            Header::UnionArgMismatch(..) => "union_arg_mismatch",
            Header::RecordArgMismatch(..) => "record_arg_mismatch",
            Header::NoAdmissibleRecords(..) => "no_admissible_records",
            Header::AmbiguousRecord(..) => "ambiguous_record",
            Header::UninitializedFields(..) => "uninitialized_fields",
            Header::UnmatchedFields(..) => "unmatched_fields",
            Header::RequiredFieldValue(..) => "required_fields_value",
            Header::ClassNoArgs(..) => "class_no_args",
            Header::UninstantiatedItems(..) => "uninstantiated_items",
            Header::UnsatisfiedContraint(..) => "unsatisfied_contraint",
            Header::AmbiguousConstraintSolution(..) => "ambiguous_constraint_solution",
            Header::DisallowedPub(..) => "disallowed_pub",
            Header::ExpressionAlias(..) => "expression_alias",
        }
    }

    /// The message of this report.
    pub fn msg(&self) -> (s: String)
        ensures
            s@ == header_msg(*self),
    {
        match self {
            Header::Internal(msg) => msg.clone(),
            Header::CompilerNoInput() => String::from_str("no input file"),
            Header::CompilerNoSuchPath(x) => concat3("path '", x.as_str(), "' does not exist"),
            Header::CompilerBadExtension(x) => concat3("the file located at '", x.as_str(), "' is not a .mar source file"),
            Header::CompilerIO(path, msg) => concat4("failed to read file '", path.as_str(), ": ", msg.as_str()),
            Header::InvalidDependencyPath() => String::from_str("invalid dependency path in import query"),
            Header::NoSuchDependency(x) => concat3("file dependency '", x.as_str(), "' does not exist"),
            Header::UnstagedDependency(x) => concat3("file dependency '", x.as_str(), "' is unstaged"),
            Header::SelfDependency(x) => concat3("file ", x.as_str(), " imports itself"),
            Header::DependencyCycle() => String::from_str("detected a dependency cycle"),
            Header::OutsideDependency() => String::from_str("import query leads outside of the working directory"),
            Header::InvalidCharacterSequence(x) => concat3("invalid characters '", x.as_str(), "'"),
            Header::ExpectedToken(want, have) => concat5("expected ", want.text(), ", encountered ", have.text(), " instead"),
            Header::ExpectedExpression() => String::from_str("expected an expression"),
            Header::ExpectedTypeAnnotation(have) => expected_type_annotation_msg(*have),
            Header::EmptyImport() => String::from_str("empty import expression"),
            Header::InvalidImportQuery() => String::from_str("invalid import query syntax"),
            Header::RedundantSuper() => String::from_str("redundant use of the 'super' path"),
            Header::FileReimported(x) => concat3("file ", x.as_str(), " is imported again"),
            Header::InvalidInteger() => String::from_str("invalid integer literal"),
            Header::InvalidFloat() => String::from_str("invalid float literal"),
            Header::InvalidExpression() => String::from_str("invalid expression syntax"),
            Header::InvalidAccessor() => String::from_str("invalid accessor expression syntax"),
            Header::InvalidType() => String::from_str("invalid type syntax"),
            Header::InvalidTypeArg() => String::from_str("invalid type argument syntax"),
            Header::InvalidPattern() => String::from_str("invalid pattern syntax"),
            Header::InvalidSignature() => String::from_str("invalid signature syntax"),
            Header::InvalidTypeSignature() => String::from_str("invalid type signature syntax"),
            Header::InvalidTypeAnnotation() => String::from_str("invalid type annotation syntax"),
            Header::InvalidLabel() => String::from_str("invalid label syntax"),
            Header::InvalidField() => String::from_str("invalid record field syntax"),
            Header::InvalidBreak(None) => String::from_str("invalid break"),
            Header::InvalidBreak(Some(name)) => concat3("invalid break to label '", name.as_str(), "'"),
            Header::InvalidSkip(None) => String::from_str("invalid Skip"),
            Header::InvalidSkip(Some(name)) => concat3("invalid skip in label '", name.as_str(), "'"),
            Header::UnallowedSignatureName() => String::from_str("unallowed signature name"),
            Header::UnknownVariable(x) => concat3("unknown variable '", x.as_str(), "' in the current scope"),
            Header::UnknownBinding(x) => concat3("unknown binding '", x.as_str(), "' in the current scope"),
            Header::UnknownType(x) => concat3("unknown type '", x.as_str(), "' in the current scope"),
            Header::UnknownVariant(name, union_name) => concat5("unknown variant '", name.as_str(), "' in union type '", union_name.as_str(), "'"),
            Header::UnknownClassItem(name, class_name) => concat5("unknown item '", name.as_str(), "' in class '", class_name.as_str(), "'"),
            Header::NotVariable(x) => concat3("identifier '", x.as_str(), "' does not refer to a variable in the current scope"),
            Header::NotType(x) => concat3("identifier '", x.as_str(), "' does not refer to a type in the current scope"),
            Header::TypeMismatch(left, right) => concat4("type mismatch between ", left.to_text().as_str(), " and ", right.to_text().as_str()),
            Header::UnreachableConditionalBranches(1) => String::from_str("unreachable conditional branch"),
            Header::UnreachableConditionalBranches(_) => String::from_str("unreachable conditional branches"),
            Header::RefutablePattern() => String::from_str("refutable pattern"),
            Header::UnionNoArgs(x) => concat3("non-constant union type '", x.as_str(), "' has no arguments"),
            Header::UnionVariantNoArgs(x) => concat3("non-constant union variant '", x.as_str(), "' has no arguments"),
            Header::IncompleteType() => String::from_str("incomplete type expression"),
            Header::IncompleteVariant(x) => concat3("variant pattern '", x.as_str(), "' is incomplete"),
            Header::IncorrectVariantArgs(x) => concat3("variant '", x.as_str(), "' takes no arguments"),
            Header::IncorrectVariantArgCount(name, 1, have) => arg_count_msg(name, 1, *have),
            Header::IncorrectVariantArgCount(name, want, 1) => arg_count_msg(name, *want, 1),
            Header::IncorrectVariantArgCount(name, want, have) => arg_count_msg(name, *want, *have),
            Header::RecordNoArgs(x) => concat3("non-constant record type '", x.as_str(), "' has no arguments"),
            Header::UnionArgMismatch(x) => concat3("invalid number of arguments provided into union type '", x.as_str(), "'"),
            Header::RecordArgMismatch(x) => concat3("invalid number of arguments provided into record type '", x.as_str(), "'"),
            Header::NoAdmissibleRecords() => String::from_str("no admissible record type in the current scope"),
            Header::AmbiguousRecord() => String::from_str("ambiguous record type for given fields"),
            Header::UninitializedFields(x) => concat3("record type '", x.as_str(), "' is not fully initialized"),
            Header::UnmatchedFields(x) => concat3("record type '", x.as_str(), "' is not fully matched"),
            Header::RequiredFieldValue() => String::from_str("record field requires a value to be initialized"),
            Header::ClassNoArgs(x) => concat3("class '", x.as_str(), "' has no type arguments"),
            Header::UninstantiatedItems(x) => concat3("instantiation of class '", x.as_str(), "' is incomplete"),
            Header::UnsatisfiedContraint(c) => concat3("unsatisfied constraint [", c.to_text().as_str(), "]"),
            Header::AmbiguousConstraintSolution(c) => concat3("ambiguous solution for constraint [", c.to_text().as_str(), "]"),
            Header::DisallowedPub() => String::from_str("disallowed usage of the 'pub' access modifier"),
            Header::ExpressionAlias() => String::from_str("disallowed usage of 'alias' for an expression"),
        }
    }
}

} // verus!
