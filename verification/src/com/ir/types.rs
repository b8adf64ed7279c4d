//! Types as the checker sees them, and their printed forms.

use vstd::prelude::*;
use std::collections::BTreeSet;
use crate::com::loc::Loc;
use crate::com::ir::EntityID;
use crate::com::reporting::{Label, Report};
use crate::com::reporting::report::LabelStyle;
use crate::com::style::{bold, underline, bold_form, underline_form};

verus! {

/// The index of a type node.
#[derive(Debug, Copy, Clone, PartialEq, Eq, Structural, PartialOrd, Ord, Hash)]
pub struct TypeID(pub usize);

/// A node of the type graph: its representative, what it is, and where it came from.
pub struct TypeNode {
    pub parent: TypeID,
    pub ty: Type,
    pub loc: Option<Loc>,
    pub depth: usize,
    pub provenances: Vec<TypeProvenance>,
}

/// A type generalised over some type variables, under some constraints.
#[derive(Clone)]
pub struct Scheme {
    pub forall: BTreeSet<TypeID>,
    pub uninstantiated: TypeID,
    pub constraints: Vec<Constraint>,
}

impl Scheme {
    /// The scheme of `ty` that generalises nothing and constrains nothing.
    pub fn mono(ty: TypeID) -> (s: Self)
        ensures
            s.forall@ == Set::<TypeID>::empty(),
            s.uninstantiated == ty,
            s.constraints@ == Seq::<Constraint>::empty(),
    {
        Self { forall: BTreeSet::new(), uninstantiated: ty, constraints: Vec::new() }
    }
}

/// An instance of a class, generalised over some type variables, which
/// holds under some other constraints.
#[derive(Clone)]
pub struct InstanceScheme {
    pub forall: BTreeSet<TypeID>,
    pub constraint: Constraint,
    pub required_constraints: Vec<Constraint>,
}

/// A class applied to type arguments.
#[derive(Clone)]
pub struct Constraint {
    pub id: EntityID,
    pub loc: Loc,
    pub class_args: Vec<TypeID>,
    pub associated_args: Vec<TypeID>,
}

/// What a type node stands for.
#[derive(Clone, Debug)]
pub enum Type {
    Var,
    Int,
    Float,
    Bool,
    String,
    Tuple(Vec<TypeID>),
    Array(TypeID),
    Lambda(Vec<TypeID>, TypeID),
    Record(EntityID, Option<Vec<TypeID>>),
    Union(EntityID, Option<Vec<TypeID>>),
}

impl Type {
    /// The unit type: the tuple of no items.
    pub fn unit() -> (t: Self)
        ensures
            t matches Type::Tuple(items) && items@.len() == 0,
    {
        Self::Tuple(Vec::new())
    }
}

/// Where a type requirement came from, for the labels of a report.
#[derive(Clone)]
pub enum TypeProvenance {
    ReturnedFromBreak(Loc, Option<String>),
    NonExhaustiveConditional(Loc),
    VariableDefinition(Loc, String),
    VariantDefinition(Loc, String, Loc, String),
    ClassItemDefinition(Loc, String, Loc, String),
}

/// A copy of an optional name.
fn clone_name(name: &Option<String>) -> (res: Option<String>)
    ensures
        res == *name,
{
    match name {
        Some(n) => Some(n.clone()),
        None => None,
    }
}

impl TypeProvenance {
    /// The labels that explain this provenance in a report.
    pub open spec fn labels(self) -> Seq<(Label, Loc, LabelStyle)> {
        match self {
            TypeProvenance::ReturnedFromBreak(loc, name) =>
                seq![(Label::ReturnedFromBreak(name), loc, LabelStyle::Secondary)],
            TypeProvenance::NonExhaustiveConditional(loc) =>
                seq![(Label::NonExhaustiveConditionalUnit, loc, LabelStyle::Secondary)],
            TypeProvenance::VariableDefinition(loc, name) =>
                seq![(Label::VariableDefinition(name), loc, LabelStyle::Secondary)],
            TypeProvenance::VariantDefinition(variant_loc, variant_name, union_loc, union_name) => seq![
                (Label::VariantDefinition(variant_name), variant_loc, LabelStyle::Secondary),
                (Label::UnionDefinition(union_name), union_loc, LabelStyle::Secondary),
            ],
            TypeProvenance::ClassItemDefinition(item_loc, item_name, class_loc, class_name) => seq![
                (Label::ClassDefinition(class_name), class_loc, LabelStyle::Secondary),
                (Label::ClassItemDefinition(item_name), item_loc, LabelStyle::Secondary),
            ],
        }
    }

    /// `report` with the labels that explain this provenance added, as
    /// places that give context.
    pub fn apply(&self, report: Report) -> (r: Report)
        ensures
            r.header == report.header,
            r.severity == report.severity,
            r.labels@ == report.labels@ + self.labels(),
            r.notes@ == report.notes@,
    {
        let r = match self {
            TypeProvenance::ReturnedFromBreak(loc, name) =>
                report.with_secondary_label(Label::ReturnedFromBreak(clone_name(name)), *loc),
            TypeProvenance::NonExhaustiveConditional(loc) =>
                report.with_secondary_label(Label::NonExhaustiveConditionalUnit, *loc),
            TypeProvenance::VariableDefinition(loc, name) =>
                report.with_secondary_label(Label::VariableDefinition(name.clone()), *loc),
            TypeProvenance::VariantDefinition(variant_loc, variant_name, union_loc, union_name) => report
                .with_secondary_label(Label::VariantDefinition(variant_name.clone()), *variant_loc)
                .with_secondary_label(Label::UnionDefinition(union_name.clone()), *union_loc),
            TypeProvenance::ClassItemDefinition(item_loc, item_name, class_loc, class_name) => report
                .with_secondary_label(Label::ClassDefinition(class_name.clone()), *class_loc)
                .with_secondary_label(Label::ClassItemDefinition(item_name.clone()), *item_loc),
        };
        proof {
            assert(r.labels@ =~= report.labels@ + self.labels());
        }
        r
    }
}

/// A type as it is printed in messages.
#[derive(Debug, PartialEq, Eq, Hash)]
pub enum TypeString {
    Hidden,
    Name(String),
    Int,
    Float,
    Bool,
    String,
    Tuple(Vec<TypeString>),
    Array(Box<TypeString>),
    Lambda(Vec<TypeString>, Box<TypeString>),
    Constructor(String, Vec<TypeString>),
}

/// The content of a printed type: names as their characters, lists as sequences.
pub enum TypeStringModel {
    Hidden,
    Name(Seq<char>),
    Int,
    Float,
    Bool,
    String,
    Tuple(Seq<TypeStringModel>),
    Array(Box<TypeStringModel>),
    Lambda(Seq<TypeStringModel>, Box<TypeStringModel>),
    Constructor(Seq<char>, Seq<TypeStringModel>),
}

impl TypeString {
    pub open spec fn model(self) -> TypeStringModel
        decreases self,
    {
        match self {
            TypeString::Hidden => TypeStringModel::Hidden,
            TypeString::Name(name) => TypeStringModel::Name(name@),
            TypeString::Int => TypeStringModel::Int,
            TypeString::Float => TypeStringModel::Float,
            TypeString::Bool => TypeStringModel::Bool,
            TypeString::String => TypeStringModel::String,
            TypeString::Tuple(items) => TypeStringModel::Tuple(type_models(items@)),
            TypeString::Array(item) => TypeStringModel::Array(Box::new(item.model())),
            TypeString::Lambda(args, ret) => TypeStringModel::Lambda(type_models(args@), Box::new(ret.model())),
            TypeString::Constructor(name, items) => TypeStringModel::Constructor(name@, type_models(items@)),
        }
    }
}

/// The content of each of `items`, in order.
pub open spec fn type_models(items: Seq<TypeString>) -> Seq<TypeStringModel>
    decreases items,
{
    if items.len() == 0 {
        Seq::empty()
    } else {
        type_models(items.drop_last()).push(items.last().model())
    }
}

pub proof fn lemma_type_models_len(items: Seq<TypeString>)
    ensures
        type_models(items).len() == items.len(),
    decreases items.len(),
{
    if items.len() > 0 {
        lemma_type_models_len(items.drop_last());
    }
}

pub proof fn lemma_type_models_index(items: Seq<TypeString>, i: int)
    requires
        0 <= i < items.len(),
    ensures
        type_models(items)[i] == items[i].model(),
    decreases items.len(),
{
    lemma_type_models_len(items.drop_last());
    if i < items.len() - 1 {
        lemma_type_models_index(items.drop_last(), i);
    }
}

/// The contents of a prefix grow by one item at a time.
proof fn lemma_type_models_prefix(items: Seq<TypeString>, i: int)
    requires
        0 <= i < items.len(),
    ensures
        type_models(items.subrange(0, i + 1)) == type_models(items.subrange(0, i)).push(items[i].model()),
{
    assert(items.subrange(0, i + 1).drop_last() =~= items.subrange(0, i));
}

/// The printed form of `t`; with `paren`, a function type is put in
/// parentheses so that it can stand inside another type.
pub open spec fn type_text(t: TypeStringModel, paren: bool) -> Seq<char>
    decreases t, 0nat,
{
    match t {
        TypeStringModel::Hidden => "_"@,
        TypeStringModel::Name(name) => name,
        TypeStringModel::Int => "int"@,
        TypeStringModel::Float => "float"@,
        TypeStringModel::Bool => "bool"@,
        TypeStringModel::String => "string"@,
        TypeStringModel::Tuple(items) => "("@ + list_text(items, false) + ")"@,
        TypeStringModel::Array(item) => "[]"@ + type_text(*item, true),
        TypeStringModel::Lambda(args, ret) =>
            (if paren { "("@ } else { Seq::empty() }) + "fun"@ + "("@ + list_text(args, true) + ")"@
                + lambda_tail(*ret) + (if paren { ")"@ } else { Seq::empty() }),
        TypeStringModel::Constructor(name, items) => name + "("@ + list_text(items, false) + ")"@,
    }
}

/// The printed forms of `items`, separated by commas.
pub open spec fn list_text(items: Seq<TypeStringModel>, paren: bool) -> Seq<char>
    decreases items, 0nat,
{
    if items.len() == 0 {
        Seq::empty()
    } else if items.len() == 1 {
        type_text(items[0], paren)
    } else {
        type_text(items[0], paren) + ", "@ + list_text(items.drop_first(), paren)
    }
}

/// The rest of a curried function type after its first argument list: the
/// further argument lists, then the arrow and the final result.
pub open spec fn lambda_tail(ret: TypeStringModel) -> Seq<char>
    decreases ret, 1nat,
{
    match ret {
        TypeStringModel::Lambda(args, next) => "("@ + list_text(args, true) + ")"@ + lambda_tail(*next),
        _ => " => "@ + type_text(ret, false),
    }
}

/// Printing one more item adds a comma and the item at the end.
pub proof fn lemma_list_text_snoc(items: Seq<TypeStringModel>, last: TypeStringModel, paren: bool)
    ensures
        list_text(items.push(last), paren) == if items.len() == 0 {
            type_text(last, paren)
        } else {
            list_text(items, paren) + ", "@ + type_text(last, paren)
        },
    decreases items.len(),
{
    if items.len() == 0 {
        assert(items.push(last).len() == 1);
        assert(items.push(last)[0] == last);
    } else if items.len() == 1 {
        assert(items.push(last).drop_first() =~= seq![last]);
        assert(list_text(seq![last], paren) == type_text(last, paren));
    } else {
        lemma_list_text_snoc(items.drop_first(), last, paren);
        assert(items.push(last).drop_first() =~= items.drop_first().push(last));
        let a = type_text(items[0], paren);
        let r = list_text(items.drop_first(), paren);
        assert((a + ", "@ + r) + ", "@ + type_text(last, paren)
            =~= a + ", "@ + (r + ", "@ + type_text(last, paren)));
    }
}

impl Clone for TypeString {
    fn clone(&self) -> (res: Self)
        ensures
            res.model() == self.model(),
        decreases self, 0nat,
    {
        match self {
            TypeString::Hidden => TypeString::Hidden,
            TypeString::Name(name) => TypeString::Name(name.clone()),
            TypeString::Int => TypeString::Int,
            TypeString::Float => TypeString::Float,
            TypeString::Bool => TypeString::Bool,
            TypeString::String => TypeString::String,
            TypeString::Tuple(items) => TypeString::Tuple(clone_types(items)),
            TypeString::Array(item) => TypeString::Array(Box::new((**item).clone())),
            TypeString::Lambda(args, ret) => TypeString::Lambda(clone_types(args), Box::new((**ret).clone())),
            TypeString::Constructor(name, items) => TypeString::Constructor(name.clone(), clone_types(items)),
        }
    }
}

/// A copy of each of `items`, in order.
pub fn clone_types(items: &Vec<TypeString>) -> (res: Vec<TypeString>)
    ensures
        type_models(res@) == type_models(items@),
    decreases items, 0nat,
{
    let mut res: Vec<TypeString> = Vec::new();
    let mut i: usize = 0;
    while i < items.len()
        invariant
            0 <= i <= items.len(),
            type_models(res@) == type_models(items@.subrange(0, i as int)),
        decreases items.len() - i,
    {
        proof {
            assert(decreases_to!(items => items[i as int]));
        }
        let item = items[i].clone();
        let ghost before = res@;
        res.push(item);
        proof {
            assert(res@.drop_last() =~= before);
            lemma_type_models_prefix(items@, i as int);
        }
        i = i + 1;
    }
    proof {
        assert(items@.subrange(0, items.len() as int) =~= items@);
    }
    res
}

impl TypeString {
    /// Appends the printed form of this type to `out`.
    pub fn fmt_paren(&self, paren: bool, out: &mut String)
        ensures
            final(out)@ == old(out)@ + type_text(self.model(), paren),
        decreases self, 0nat,
    {
        match self {
            TypeString::Hidden => out.append("_"),
            TypeString::Name(name) => out.append(name.as_str()),
            TypeString::Int => out.append("int"),
            TypeString::Float => out.append("float"),
            TypeString::Bool => out.append("bool"),
            TypeString::String => out.append("string"),
            TypeString::Tuple(items) => {
                out.append("(");
                Self::fmt_list(items, false, out);
                out.append(")");
            },
            TypeString::Array(item) => {
                out.append("[]");
                item.fmt_paren(true, out);
            },
            TypeString::Lambda(args, ret) => {
                let ghost start = out@;
                if paren {
                    out.append("(");
                }
                out.append("fun");
                out.append("(");
                Self::fmt_list(args, true, out);
                out.append(")");
                Self::fmt_lambda_tail(ret, out);
                if paren {
                    out.append(")");
                }
                proof {
                    let p: Seq<char> = if paren { "("@ } else { Seq::empty() };
                    let q: Seq<char> = if paren { ")"@ } else { Seq::empty() };
                    assert(out@ =~= start + (p + "fun"@ + "("@ + list_text(type_models(args@), true) + ")"@
                        + lambda_tail(ret.model()) + q));
                }
            },
            TypeString::Constructor(name, items) => {
                out.append(name.as_str());
                out.append("(");
                Self::fmt_list(items, false, out);
                out.append(")");
            },
        }
    }

    fn fmt_list(items: &Vec<TypeString>, paren: bool, out: &mut String)
        ensures
            final(out)@ == old(out)@ + list_text(type_models(items@), paren),
        decreases items, 0nat,
    {
        let ghost start = out@;
        let mut i: usize = 0;
        while i < items.len()
            invariant
                0 <= i <= items.len(),
                out@ == start + list_text(type_models(items@.subrange(0, i as int)), paren),
            decreases items.len() - i,
        {
            proof {
                lemma_type_models_prefix(items@, i as int);
                lemma_type_models_len(items@.subrange(0, i as int));
                lemma_list_text_snoc(type_models(items@.subrange(0, i as int)), items@[i as int].model(), paren);
            }
            if i > 0 {
                out.append(", ");
            }
            proof {
                assert(decreases_to!(items => items[i as int]));
            }
            items[i].fmt_paren(paren, out);
            i = i + 1;
        }
        proof {
            assert(items@.subrange(0, items.len() as int) =~= items@);
        }
    }

    fn fmt_lambda_tail(ret: &TypeString, out: &mut String)
        ensures
            final(out)@ == old(out)@ + lambda_tail(ret.model()),
        decreases ret, 1nat,
    {
        match ret {
            TypeString::Lambda(args, next) => {
                out.append("(");
                Self::fmt_list(args, true, out);
                out.append(")");
                Self::fmt_lambda_tail(next, out);
            },
            _ => {
                out.append(" => ");
                ret.fmt_paren(false, out);
            },
        }
    }

    /// The printed form of this type.
    pub fn to_text(&self) -> (s: String)
        ensures
            s@ == type_text(self.model(), false),
    {
        let mut s = String::new();
        self.fmt_paren(false, &mut s);
        s
    }
}

/// A class applied to printed types, as it is printed in messages.
#[derive(Debug, PartialEq, Eq, Hash)]
pub struct ConstraintString {
    pub name: String,
    pub class_args: Vec<TypeString>,
    pub associated_args: Vec<TypeString>,
}

/// The content of a printed constraint.
pub struct ConstraintStringModel {
    pub name: Seq<char>,
    pub class_args: Seq<TypeStringModel>,
    pub associated_args: Seq<TypeStringModel>,
}

impl ConstraintString {
    pub open spec fn model(self) -> ConstraintStringModel {
        ConstraintStringModel {
            name: self.name@,
            class_args: type_models(self.class_args@),
            associated_args: type_models(self.associated_args@),
        }
    }
}

/// Each of `items` printed after a space, one after the other.
pub open spec fn spaced_text(items: Seq<TypeStringModel>) -> Seq<char>
    decreases items.len(),
{
    if items.len() == 0 {
        Seq::empty()
    } else {
        spaced_text(items.drop_last()) + " "@ + type_text(items.last(), false)
    }
}

/// The printed form of a constraint: the class, its arguments in
/// parentheses, then the associated types after `of`, if there are any.
pub open spec fn constraint_text(c: ConstraintStringModel) -> Seq<char> {
    c.name + "("@ + list_text(c.class_args, false) + ")"@
        + if c.associated_args.len() == 0 { Seq::empty() } else { " of"@ + spaced_text(c.associated_args) }
}

impl Clone for ConstraintString {
    fn clone(&self) -> (res: Self)
        ensures
            res.model() == self.model(),
    {
        ConstraintString {
            name: self.name.clone(),
            class_args: clone_types(&self.class_args),
            associated_args: clone_types(&self.associated_args),
        }
    }
}

impl ConstraintString {
    /// Appends the printed form of this constraint to `out`.
    pub fn fmt_into(&self, out: &mut String)
        ensures
            final(out)@ == old(out)@ + constraint_text(self.model()),
    {
        let ghost start = out@;
        out.append(self.name.as_str());
        out.append("(");
        TypeString::fmt_list(&self.class_args, false, out);
        out.append(")");
        let ghost head = out@;
        if self.associated_args.len() > 0 {
            out.append(" of");
            let ghost of_at = out@;
            let mut i: usize = 0;
            while i < self.associated_args.len()
                invariant
                    0 <= i <= self.associated_args.len(),
                    out@ == of_at + spaced_text(type_models(self.associated_args@.subrange(0, i as int))),
                decreases self.associated_args.len() - i,
            {
                proof {
                    lemma_type_models_prefix(self.associated_args@, i as int);
                    let m = type_models(self.associated_args@.subrange(0, i + 1));
                    assert(m.drop_last() =~= type_models(self.associated_args@.subrange(0, i as int)));
                }
                out.append(" ");
                self.associated_args[i].fmt_paren(false, out);
                i = i + 1;
            }
            proof {
                assert(self.associated_args@.subrange(0, self.associated_args.len() as int) =~= self.associated_args@);
            }
        }
        proof {
            lemma_type_models_len(self.associated_args@);
            assert(out@ =~= start + constraint_text(self.model()));
        }
    }

    /// The printed form of this constraint.
    pub fn to_text(&self) -> (s: String)
        ensures
            s@ == constraint_text(self.model()),
    {
        let mut s = String::new();
        self.fmt_into(&mut s);
        s
    }
}

/// A type scheme as it is printed in messages.
#[derive(Debug)]
pub struct SchemeString {
    pub forall: Vec<String>,
    pub uninstantiated: TypeString,
    pub constraints: Vec<ConstraintString>,
}

/// A class instance's scheme as it is printed in messages.
#[derive(Debug)]
pub struct InstanceSchemeString {
    pub forall: Vec<String>,
    pub constraint: ConstraintString,
    pub required_constraints: Vec<ConstraintString>,
}

/// The views of a list of strings.
pub open spec fn string_views(items: Seq<String>) -> Seq<Seq<char>> {
    items.map_values(|s: String| s@)
}

/// The content of each of `items`, in order.
pub open spec fn constraint_models(items: Seq<ConstraintString>) -> Seq<ConstraintStringModel> {
    items.map_values(|c: ConstraintString| c.model())
}

/// Each of `names` after a space, one after the other.
pub open spec fn spaced_names(names: Seq<Seq<char>>) -> Seq<char>
    decreases names.len(),
{
    if names.len() == 0 {
        Seq::empty()
    } else {
        spaced_names(names.drop_last()) + " "@ + names.last()
    }
}

/// Each constraint of `cs` in square brackets, separated by commas.
pub open spec fn bracketed(cs: Seq<ConstraintStringModel>) -> Seq<char>
    decreases cs.len(),
{
    if cs.len() == 0 {
        Seq::empty()
    } else if cs.len() == 1 {
        "["@ + constraint_text(cs[0]) + "]"@
    } else {
        bracketed(cs.drop_last()) + ", "@ + "["@ + constraint_text(cs.last()) + "]"@
    }
}

/// The printed form of a scheme, where `forall_word`, `ty_word` and
/// `where_word` are the emphasised forms of `forall`, of the type and of `where`.
pub open spec fn scheme_text(
    forall: Seq<Seq<char>>,
    ty: TypeStringModel,
    constraints: Seq<ConstraintStringModel>,
    forall_word: Seq<char>,
    ty_word: Seq<char>,
    where_word: Seq<char>,
) -> Seq<char> {
    if forall.len() == 0 {
        type_text(ty, false)
    } else {
        forall_word + spaced_names(forall) + ", "@ + ty_word
            + if constraints.len() == 0 { Seq::empty() } else { ", "@ + where_word + " "@ + bracketed(constraints) }
    }
}

/// The printed form of an instance scheme, where `forall_word`, `have_word`,
/// `constraint_word` and `where_word` are the emphasised forms of `forall`,
/// of `have`, of the constraint and of `where`.
pub open spec fn instance_scheme_text(
    forall: Seq<Seq<char>>,
    constraint: ConstraintStringModel,
    required: Seq<ConstraintStringModel>,
    forall_word: Seq<char>,
    have_word: Seq<char>,
    constraint_word: Seq<char>,
    where_word: Seq<char>,
) -> Seq<char> {
    (if forall.len() == 0 { Seq::empty() } else { forall_word + spaced_names(forall) + ", "@ })
        + have_word + " ["@ + constraint_word + "]"@
        + if required.len() == 0 { Seq::empty() } else { ", "@ + where_word + " "@ + bracketed(required) }
}

/// Whether a text holds no escape character.
pub open spec fn plain_text(t: Seq<char>) -> bool {
    !t.contains('\x1b')
}

/// Appends each of `names` after a space.
fn push_spaced_names(out: &mut String, names: &Vec<String>)
    ensures
        final(out)@ == old(out)@ + spaced_names(string_views(names@)),
{
    let ghost start = out@;
    let mut i: usize = 0;
    while i < names.len()
        invariant
            0 <= i <= names.len(),
            out@ == start + spaced_names(string_views(names@.subrange(0, i as int))),
        decreases names.len() - i,
    {
        proof {
            assert(string_views(names@.subrange(0, i + 1)).drop_last()
                =~= string_views(names@.subrange(0, i as int)));
        }
        out.append(" ");
        out.append(names[i].as_str());
        i = i + 1;
    }
    proof {
        assert(names@.subrange(0, names.len() as int) =~= names@);
    }
}

/// Appends each constraint in square brackets, separated by commas.
fn push_bracketed(out: &mut String, cs: &Vec<ConstraintString>)
    ensures
        final(out)@ == old(out)@ + bracketed(constraint_models(cs@)),
{
    let ghost start = out@;
    let mut i: usize = 0;
    while i < cs.len()
        invariant
            0 <= i <= cs.len(),
            out@ == start + bracketed(constraint_models(cs@.subrange(0, i as int))),
        decreases cs.len() - i,
    {
        proof {
            let m = constraint_models(cs@.subrange(0, i + 1));
            assert(m.drop_last() =~= constraint_models(cs@.subrange(0, i as int)));
            if i == 0 {
                assert(m.len() == 1);
            }
        }
        if i > 0 {
            out.append(", ");
        }
        out.append("[");
        cs[i].fmt_into(out);
        out.append("]");
        i = i + 1;
    }
    proof {
        assert(cs@.subrange(0, cs.len() as int) =~= cs@);
    }
}

impl SchemeString {
    /// The printed form of this scheme. The words `forall` and `where` are
    /// in bold and the type underlined, where the terminal shows emphasis.
    pub fn to_text(&self) -> (s: String)
        ensures
            exists|fw: Seq<char>, tw: Seq<char>, ww: Seq<char>|
                bold_form("forall"@, fw) && bold_form("where"@, ww)
                && (plain_text(type_text(self.uninstantiated.model(), false))
                    ==> underline_form(type_text(self.uninstantiated.model(), false), tw))
                && s@ == scheme_text(string_views(self.forall@), self.uninstantiated.model(),
                    constraint_models(self.constraints@), fw, tw, ww),
    {
        let ghost ty = type_text(self.uninstantiated.model(), false);
        if self.forall.len() == 0 {
            let s = self.uninstantiated.to_text();
            proof {
                assert(bold_form("forall"@, "forall"@));
                assert(bold_form("where"@, "where"@));
                assert(underline_form(ty, ty));
                assert(string_views(self.forall@).len() == 0);
                assert(s@ == scheme_text(string_views(self.forall@), self.uninstantiated.model(),
                    constraint_models(self.constraints@), "forall"@, ty, "where"@));
            }
            return s;
        }
        proof {
            reveal_strlit("forall");
            reveal_strlit("where");
        }
        let fw = bold("forall");
        let mut s = String::new();
        s.append(fw.as_str());
        push_spaced_names(&mut s, &self.forall);
        s.append(", ");
        let ty_text = self.uninstantiated.to_text();
        let tw = underline(ty_text.as_str());
        s.append(tw.as_str());
        let ghost head = s@;
        let ghost mut ww_shown: Seq<char> = "where"@;
        if self.constraints.len() > 0 {
            s.append(", ");
            let ww = bold("where");
            s.append(ww.as_str());
            s.append(" ");
            push_bracketed(&mut s, &self.constraints);
            proof {
                ww_shown = ww@;
            }
        }
        proof {
            assert(s@ =~= scheme_text(string_views(self.forall@), self.uninstantiated.model(),
                constraint_models(self.constraints@), fw@, tw@, ww_shown));
        }
        s
    }
}

impl InstanceSchemeString {
    /// The printed form of this instance scheme. The words `forall`, `have`
    /// and `where` are in bold and the constraint underlined, where the
    /// terminal shows emphasis.
    pub fn to_text(&self) -> (s: String)
        ensures
            exists|fw: Seq<char>, hw: Seq<char>, cw: Seq<char>, ww: Seq<char>|
                bold_form("forall"@, fw) && bold_form("have"@, hw) && bold_form("where"@, ww)
                && (plain_text(constraint_text(self.constraint.model()))
                    ==> underline_form(constraint_text(self.constraint.model()), cw))
                && s@ == instance_scheme_text(string_views(self.forall@), self.constraint.model(),
                    constraint_models(self.required_constraints@), fw, hw, cw, ww),
    {
        proof {
            reveal_strlit("forall");
            reveal_strlit("have");
            reveal_strlit("where");
        }
        let mut s = String::new();
        let ghost mut fw_shown: Seq<char> = "forall"@;
        if self.forall.len() > 0 {
            let fw = bold("forall");
            s.append(fw.as_str());
            push_spaced_names(&mut s, &self.forall);
            s.append(", ");
            proof {
                fw_shown = fw@;
            }
        }
        let hw = bold("have");
        s.append(hw.as_str());
        s.append(" [");
        let c_text = self.constraint.to_text();
        let cw = underline(c_text.as_str());
        s.append(cw.as_str());
        s.append("]");
        let ghost mut ww_shown: Seq<char> = "where"@;
        if self.required_constraints.len() > 0 {
            s.append(", ");
            let ww = bold("where");
            s.append(ww.as_str());
            s.append(" ");
            push_bracketed(&mut s, &self.required_constraints);
            proof {
                ww_shown = ww@;
            }
        }
        proof {
            assert(s@ =~= instance_scheme_text(string_views(self.forall@), self.constraint.model(),
                constraint_models(self.required_constraints@), fw_shown, hw@, cw@, ww_shown));
        }
        s
    }
}

} // verus!
