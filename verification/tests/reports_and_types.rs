use marin::com::compiler::{init, StagedFileInfo};
use marin::com::ir::entity::{Entities, UserTypeInfo, VariableInfo};
use marin::com::ir::types::{ConstraintString, Scheme, SchemeString, TypeID, TypeString};
use marin::com::ir::{Constructor, EntityID, Pattern};
use marin::com::loc::{Loc, Span};
use marin::com::reporting::report::{LabelStyle, Severity};
use marin::com::reporting::{Header, Label, Note, Report};
use marin::com::token::Token;

#[test]
fn header_names_and_messages() {
    assert_eq!(Header::CompilerNoInput().name(), "compiler_no_input");
    assert_eq!(Header::CompilerNoInput().msg(), "no input file");
    assert_eq!(Header::ExpectedExpression().msg(), "expected an expression");
    assert_eq!(Header::InvalidCharacterSequence("@#".to_string()).msg(), "invalid characters '@#'");
    assert_eq!(Header::ExpectedToken(Token::End, Token::Comma).name(), "expected_token");
    assert_eq!(Header::ExpectedToken(Token::End, Token::Comma).msg(), "expected 'end', encountered ',' instead");
    assert_eq!(Header::EmptyImport().msg(), "empty import expression");
}

#[test]
fn type_mismatch_message_prints_types() {
    let h = Header::TypeMismatch(TypeString::Int, TypeString::Tuple(vec![TypeString::Bool, TypeString::String]));
    let msg = h.msg();
    assert!(msg.contains("int"));
    assert!(msg.contains("(bool, string)"));
}

#[test]
fn label_and_note_messages() {
    assert_eq!(Label::Empty.msg(), "");
    assert_eq!(Label::ExpectedImportQuery.msg(), "expected one or more import queries");
    assert_eq!(Note::RecordFieldSyntax.msg(), "a record field should be an identifier");
    assert_eq!(Note::ConsiderStage("a.mar".to_string()).msg(), "consider staging a.mar in the compile command");
    assert_eq!(
        Note::CyclicDependencies(vec!["a".to_string(), "b".to_string()]).msg(),
        "files involved in the cycle\n  a\n  b"
    );
}

#[test]
fn report_building_and_diagnostic() {
    let loc = Loc::new(Span::new(1, 4), 3);
    let r = Report::error(Header::ExpectedExpression())
        .with_primary_label(Label::Empty, loc)
        .with_secondary_label(Label::ExpectedImportQuery, Loc::new(Span::at(9), 3))
        .with_note(Note::RecordSyntax);
    assert!(r.is_fatal());
    let d = r.to_diagnostic();
    assert_eq!(d.severity, Severity::Error);
    assert_eq!(d.code, "expected_expression");
    assert_eq!(d.message, "expected an expression");
    assert_eq!(d.labels.len(), 2);
    assert_eq!(d.labels[0].style, LabelStyle::Primary);
    assert_eq!(d.labels[0].span, Span::new(1, 4));
    assert_eq!(d.labels[0].file, 3);
    assert_eq!(d.labels[1].style, LabelStyle::Secondary);
    assert_eq!(d.labels[1].message, "expected one or more import queries");
    assert_eq!(d.notes.len(), 1);
    let w = Report::warning(Header::EmptyImport());
    assert!(!w.is_fatal());
    assert_eq!(w.severity, Severity::Warning);
}

#[test]
fn type_strings() {
    assert_eq!(TypeString::Hidden.to_text(), "_");
    assert_eq!(TypeString::Array(Box::new(TypeString::Int)).to_text(), "[]int");
    let lambda = TypeString::Lambda(vec![TypeString::Int, TypeString::Bool], Box::new(TypeString::String));
    assert_eq!(lambda.to_text(), "fun(int, bool) => string");
    let curried = TypeString::Lambda(
        vec![TypeString::Int],
        Box::new(TypeString::Lambda(vec![TypeString::Float], Box::new(TypeString::Bool))),
    );
    assert_eq!(curried.to_text(), "fun(int)(float) => bool");
    let array_of_fun = TypeString::Array(Box::new(lambda));
    assert_eq!(array_of_fun.to_text(), "[](fun(int, bool) => string)");
    let cons = TypeString::Constructor("list".to_string(), vec![TypeString::Name("a".to_string())]);
    assert_eq!(cons.to_text(), "list(a)");
}

#[test]
fn constraint_strings() {
    let c = ConstraintString { name: "Eq".to_string(), class_args: vec![TypeString::Int], associated_args: vec![] };
    assert_eq!(c.to_text(), "Eq(int)");
    let d = ConstraintString {
        name: "Iter".to_string(),
        class_args: vec![TypeString::Name("t".to_string())],
        associated_args: vec![TypeString::Int, TypeString::Bool],
    };
    assert_eq!(d.to_text(), "Iter(t) of int bool");
}

#[test]
fn scheme_without_variables_is_its_type() {
    let s = SchemeString { forall: vec![], uninstantiated: TypeString::Int, constraints: vec![] };
    assert_eq!(s.to_text(), "int");
}

#[test]
fn compiler_reads_sources() {
    let c = init();
    assert!(!c.is_fatal());
    let empty = c.read_sources(vec![]);
    assert_eq!(empty.reports.len(), 1);
    assert!(matches!(empty.reports[0].header, Header::CompilerNoInput()));
    assert!(empty.is_fatal());
}

#[test]
fn std_file_info() {
    assert!(StagedFileInfo::marin_std_file().is_from_std);
    assert!(!StagedFileInfo::default().is_from_std);
}

#[test]
fn entities_store_then_find() {
    let mut e = Entities::default();
    let info = |name: &str| VariableInfo {
        name: name.to_string(),
        scheme: Scheme::mono(TypeID(0)),
        loc: Loc::new(Span::at(0), 0),
        depth: 0,
        is_captured: false,
    };
    let a = e.create_variable(info("a"));
    let b = e.create_variable(info("b"));
    assert_eq!(a.0, 0);
    assert_eq!(b.0, 1);
    assert_eq!(e.next_variable_id().0, 2);
    assert_eq!(e.get_variable_info(a).name, "a");
    assert_eq!(e.get_variable_info(b).name, "b");
    e.get_variable_info_mut(a).is_captured = true;
    assert!(e.get_variable_info(a).is_captured);
    assert!(!e.get_variable_info(b).is_captured);
    let t = e.create_user_type(UserTypeInfo { id: TypeID(7) });
    assert_eq!(e.get_user_type_info(t).id, TypeID(7));
    assert_eq!(e.variables.len(), 2);
}

#[test]
fn checked_patterns() {
    let p = Pattern::Tuple(vec![Pattern::Binding(EntityID(3)), Pattern::Tuple(vec![Pattern::Binding(EntityID(5))])]);
    assert!(p.is_exhaustive());
    assert_eq!(p.constructor(), Constructor::Tuple(2));
    assert_eq!(p.get_binding_ids(), vec![EntityID(3), EntityID(5)]);
    assert_eq!(p.constructor_args().len(), 2);
    let q = Pattern::Tuple(vec![Pattern::Binding(EntityID(1)), Pattern::Int(4)]);
    assert!(!q.is_exhaustive());
    assert_eq!(Pattern::Int(4).constructor(), Constructor::Int(4));
    assert_eq!(Pattern::Binding(EntityID(1)).constructor(), Constructor::Missing);
    let v = Pattern::Variant(EntityID(2), 1, Some(vec![Pattern::Binding(EntityID(8))]));
    assert_eq!(v.constructor(), Constructor::Variant(EntityID(2), 1));
    assert_eq!(v.get_binding_ids(), vec![EntityID(8)]);
    assert!(!v.is_exhaustive());
}
