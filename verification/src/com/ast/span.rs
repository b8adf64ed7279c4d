//! The spans that the parts of the syntax tree cover: each part covers the
//! smallest span that holds the spans of its tokens and sub-parts.

use vstd::prelude::*;
use crate::com::loc::{Span, spec_combine, spec_default_span};
use crate::com::ast::{
    Expr, Tuple, Array, Block, Conditional, Branch, MatchCase, Break, Skip, Call, Index, Access, Let, Pub,
    Fun, Alias, Import, ImportFrom, ImportQuery, Record, RecordValue, Union, ClassItem, Class, Have, Binary,
    Unary, ArrayType, Label, Pattern,
};

verus! {

/// The smallest span covering every span of `spans`, combined from the
/// first to the last; the default span when there is none.
pub open spec fn spec_mix(spans: Seq<Span>) -> Span
    decreases spans.len(),
{
    if spans.len() == 0 {
        spec_default_span()
    } else {
        spec_combine(spec_mix(spans.drop_last()), spans.last())
    }
}

/// The span held, or the default span.
pub open spec fn or_default(s: Option<Span>) -> Span {
    match s {
        Some(s) => s,
        None => spec_default_span(),
    }
}

/// A mixed span starts no later and ends no earlier than each of its parts.
pub proof fn lemma_mix_covers(spans: Seq<Span>)
    ensures
        forall|i: int| 0 <= i < spans.len() ==>
            spec_mix(spans).start <= (#[trigger] spans[i]).start && spec_mix(spans).end >= spans[i].end,
    decreases spans.len(),
{
    if spans.len() > 0 {
        let init = spans.drop_last();
        lemma_mix_covers(init);
        assert forall|i: int| 0 <= i < spans.len() implies
            spec_mix(spans).start <= (#[trigger] spans[i]).start && spec_mix(spans).end >= spans[i].end by {
            if i < spans.len() - 1 {
                assert(spans[i] == init[i]);
            }
        }
    }
}

/// A mixed span starts at one of its parts' starts and ends at one of their
/// ends; with no part, it is the default span.
pub proof fn lemma_mix_tight(spans: Seq<Span>)
    ensures
        spans.len() == 0 ==> spec_mix(spans) == spec_default_span(),
        spans.len() > 0 ==> exists|i: int| 0 <= i < spans.len() && spec_mix(spans).start == (#[trigger] spans[i]).start,
        spans.len() > 0 ==> exists|i: int| 0 <= i < spans.len() && spec_mix(spans).end == (#[trigger] spans[i]).end,
    decreases spans.len(),
{
    if spans.len() > 0 {
        let init = spans.drop_last();
        let n = spans.len() - 1;
        lemma_mix_tight(init);
        if init.len() == 0 {
            assert(spec_mix(spans).start == spans[n].start);
            assert(spec_mix(spans).end == spans[n].end);
        } else {
            let a = choose|i: int| 0 <= i < init.len() && spec_mix(init).start == (#[trigger] init[i]).start;
            let b = choose|i: int| 0 <= i < init.len() && spec_mix(init).end == (#[trigger] init[i]).end;
            assert(init[a] == spans[a]);
            assert(init[b] == spans[b]);
            if spec_mix(spans).start != spans[n].start {
                assert(spec_mix(spans).start == spans[a].start);
            }
            if spec_mix(spans).end != spans[n].end {
                assert(spec_mix(spans).end == spans[b].end);
            }
        }
    }
}

/// Whether `s` lies between the positions `lo` and `hi`: it starts no
/// earlier than `lo` and ends no later than `hi`. The default span lies
/// between any two positions.
pub open spec fn lies_within(s: Span, lo: usize, hi: usize) -> bool {
    lo <= s.start && s.end <= hi
}

/// A mixed span lies between two positions where each of its parts does,
/// and starts at the lower one where its first part does.
pub proof fn lemma_mix_within(spans: Seq<Span>, lo: usize, hi: usize)
    requires
        forall|i: int| 0 <= i < spans.len() ==> lies_within(#[trigger] spans[i], lo, hi),
    ensures
        lies_within(spec_mix(spans), lo, hi),
        spans.len() > 0 && spans[0].start == lo ==> spec_mix(spans).start == lo,
    decreases spans.len(),
{
    if spans.len() > 0 {
        let init = spans.drop_last();
        assert forall|i: int| 0 <= i < init.len() implies lies_within(#[trigger] init[i], lo, hi) by {
            assert(init[i] == spans[i]);
        }
        lemma_mix_within(init, lo, hi);
        assert(lies_within(spans.last(), lo, hi));
        if init.len() > 0 {
            assert(init[0] == spans[0]);
        }
    }
}

/// `lemma_mix_within` for two parts.
pub proof fn lemma_mix2_within(a: Span, b: Span, lo: usize, hi: usize)
    requires
        lies_within(a, lo, hi),
        lies_within(b, lo, hi),
    ensures
        lies_within(spec_mix(seq![a, b]), lo, hi),
        a.start == lo ==> spec_mix(seq![a, b]).start == lo,
{
    let spans = seq![a, b];
    assert forall|i: int| 0 <= i < spans.len() implies lies_within(#[trigger] spans[i], lo, hi) by {}
    lemma_mix_within(spans, lo, hi);
}

/// `lemma_mix_within` for three parts.
pub proof fn lemma_mix3_within(a: Span, b: Span, c: Span, lo: usize, hi: usize)
    requires
        lies_within(a, lo, hi),
        lies_within(b, lo, hi),
        lies_within(c, lo, hi),
    ensures
        lies_within(spec_mix(seq![a, b, c]), lo, hi),
        a.start == lo ==> spec_mix(seq![a, b, c]).start == lo,
{
    let spans = seq![a, b, c];
    assert forall|i: int| 0 <= i < spans.len() implies lies_within(#[trigger] spans[i], lo, hi) by {}
    lemma_mix_within(spans, lo, hi);
}

/// `lemma_mix_within` for four parts.
pub proof fn lemma_mix4_within(a: Span, b: Span, c: Span, d: Span, lo: usize, hi: usize)
    requires
        lies_within(a, lo, hi),
        lies_within(b, lo, hi),
        lies_within(c, lo, hi),
        lies_within(d, lo, hi),
    ensures
        lies_within(spec_mix(seq![a, b, c, d]), lo, hi),
        a.start == lo ==> spec_mix(seq![a, b, c, d]).start == lo,
{
    let spans = seq![a, b, c, d];
    assert forall|i: int| 0 <= i < spans.len() implies lies_within(#[trigger] spans[i], lo, hi) by {}
    lemma_mix_within(spans, lo, hi);
}

/// `lemma_mix_within` for five parts.
pub proof fn lemma_mix5_within(a: Span, b: Span, c: Span, d: Span, e: Span, lo: usize, hi: usize)
    requires
        lies_within(a, lo, hi),
        lies_within(b, lo, hi),
        lies_within(c, lo, hi),
        lies_within(d, lo, hi),
        lies_within(e, lo, hi),
    ensures
        lies_within(spec_mix(seq![a, b, c, d, e]), lo, hi),
        a.start == lo ==> spec_mix(seq![a, b, c, d, e]).start == lo,
{
    let spans = seq![a, b, c, d, e];
    assert forall|i: int| 0 <= i < spans.len() implies lies_within(#[trigger] spans[i], lo, hi) by {}
    lemma_mix_within(spans, lo, hi);
}

/// The span of an expression.
pub open spec fn expr_span(e: Expr) -> Span
    decreases e, 0nat,
{
    match e {
        Expr::Missing(l) => l.span,
        Expr::Int(l) => l.span,
        Expr::Float(l) => l.span,
        Expr::String(l) => l.span,
        Expr::Builtin(l) => l.span,
        Expr::True(l) => l.span,
        Expr::False(l) => l.span,
        Expr::Underscores(l) => l.span,
        Expr::Var(l) => l.span,
        Expr::Super(l) => l.span,
        Expr::Tuple(t) => spec_mix(seq![t.left_paren, exprs_span(t.items@), t.right_paren]),
        Expr::Array(a) => spec_mix(seq![a.left_bracket, exprs_span(a.items@), a.right_bracket]),
        Expr::Block(b) => spec_mix(seq![b.do_kw, label_span(*b.label), exprs_span(b.items@), b.end_kw]),
        Expr::Conditional(c) => spec_mix(seq![branch_span(*c.first_branch), else_span(c.else_branches@), c.end_kw]),
        Expr::Break(b) => spec_mix(seq![b.break_kw, label_span(*b.label), opt_expr_span(b.expr)]),
        Expr::Skip(s) => spec_mix(seq![s.skip_kw, label_span(*s.label)]),
        Expr::Call(c) => spec_mix(seq![expr_span(*c.callee), c.left_paren, exprs_span(c.args@), c.right_paren]),
        Expr::Index(i) => spec_mix(seq![expr_span(*i.indexed), i.left_bracket, exprs_span(i.indices@), i.right_bracket]),
        Expr::Access(a) => spec_mix(seq![expr_span(*a.accessed), a.dot, expr_span(*a.accessor)]),
        Expr::Let(l) => spec_mix(seq![l.let_kw, expr_span(*l.pattern), or_default(l.assign), expr_span(*l.value)]),
        Expr::Pub(p) => spec_mix(seq![p.pub_kw, expr_span(*p.expr)]),
        Expr::Fun(f) => spec_mix(seq![f.fun_kw, expr_span(*f.signature), or_default(f.maps), expr_span(*f.value)]),
        Expr::Alias(a) => spec_mix(seq![a.alias_kw, expr_span(*a.path), a.as_kw, a.name]),
        Expr::Import(i) => spec_mix(seq![i.import_kw, queries_span(i.queries@)]),
        Expr::ImportFrom(i) => spec_mix(seq![i.import_kw, queries_span(i.queries@), i.from_kw, expr_span(*i.path_query)]),
        Expr::Record(r) => spec_mix(seq![r.record_kw, expr_span(*r.signature), fields_span(r.fields@), r.end_kw]),
        Expr::RecordValue(r) => spec_mix(seq![r.left_brace, value_fields_span(r.fields@), r.right_brace]),
        Expr::Union(u) => spec_mix(seq![u.union_kw, expr_span(*u.signature), exprs_span(u.variants@), u.end_kw]),
        Expr::Class(c) => spec_mix(seq![c.class_kw, expr_span(*c.signature), class_items_span(c.items@), c.end_kw]),
        Expr::Have(h) => spec_mix(seq![h.have_kw, expr_span(*h.class), exprs_span(h.items@), h.end_kw]),
        Expr::Binary(b) => spec_mix(seq![expr_span(*b.left), b.op_tok, expr_span(*b.right)]),
        Expr::Unary(u) => spec_mix(seq![u.op_tok, expr_span(*u.arg)]),
        Expr::ArrayType(a) => spec_mix(seq![a.left_bracket, a.right_bracket, expr_span(*a.ty)]),
    }
}

/// The span of the expression held, or the default span.
pub open spec fn opt_expr_span(x: Option<Box<Expr>>) -> Span
    decreases x, 0nat,
{
    match x {
        Some(e) => expr_span(*e),
        None => spec_default_span(),
    }
}

/// The span covering every expression of `items`.
pub open spec fn exprs_span(items: Seq<Expr>) -> Span
    decreases items, 0nat,
{
    if items.len() == 0 {
        spec_default_span()
    } else {
        spec_combine(exprs_span(items.drop_last()), expr_span(items.last()))
    }
}

/// The span covering a list of expressions covers each of them.
pub proof fn lemma_exprs_span_covers(items: Seq<Expr>, i: int)
    requires
        0 <= i < items.len(),
    ensures
        exprs_span(items).start <= expr_span(items[i]).start,
        exprs_span(items).end >= expr_span(items[i]).end,
    decreases items.len(),
{
    if i < items.len() - 1 {
        lemma_exprs_span_covers(items.drop_last(), i);
        assert(items.drop_last()[i] == items[i]);
    }
}

/// The span covering every `else` keyword and branch of `branches`.
pub open spec fn else_span(branches: Seq<(Span, Branch)>) -> Span
    decreases branches, 0nat,
{
    if branches.len() == 0 {
        spec_default_span()
    } else {
        spec_combine(
            else_span(branches.drop_last()),
            spec_mix(seq![branches.last().0, branch_span(branches.last().1)]),
        )
    }
}

/// The span covering every case of a `match`.
pub open spec fn cases_span(cases: Seq<MatchCase>) -> Span
    decreases cases, 0nat,
{
    if cases.len() == 0 {
        spec_default_span()
    } else {
        let c = cases.last();
        spec_combine(cases_span(cases.drop_last()), spec_mix(seq![expr_span(*c.pattern), c.maps, expr_span(*c.value)]))
    }
}

/// The span covering every query of an import, with its alias.
pub open spec fn queries_span(queries: Seq<ImportQuery>) -> Span
    decreases queries, 0nat,
{
    if queries.len() == 0 {
        spec_default_span()
    } else {
        let q = queries.last();
        spec_combine(
            queries_span(queries.drop_last()),
            match q.alias {
                Some(alias) => spec_mix(seq![expr_span(*q.query), alias]),
                None => expr_span(*q.query),
            },
        )
    }
}

/// The span covering every field of a record type and its type.
pub open spec fn fields_span(fields: Seq<(Expr, Expr)>) -> Span
    decreases fields, 0nat,
{
    if fields.len() == 0 {
        spec_default_span()
    } else {
        spec_combine(
            fields_span(fields.drop_last()),
            spec_mix(seq![expr_span(fields.last().0), expr_span(fields.last().1)]),
        )
    }
}

/// The span covering the name of every field of a record value.
pub open spec fn value_fields_span(fields: Seq<(Expr, Option<Expr>)>) -> Span
    decreases fields, 0nat,
{
    if fields.len() == 0 {
        spec_default_span()
    } else {
        spec_combine(value_fields_span(fields.drop_last()), expr_span(fields.last().0))
    }
}

/// The span covering every item of a class, its signature and its type.
pub open spec fn class_items_span(items: Seq<(ClassItem, Expr, Expr)>) -> Span
    decreases items, 0nat,
{
    if items.len() == 0 {
        spec_default_span()
    } else {
        spec_combine(
            class_items_span(items.drop_last()),
            spec_mix(seq![expr_span(items.last().1), expr_span(items.last().2)]),
        )
    }
}

/// The span of a label.
pub open spec fn label_span(l: Label) -> Span
    decreases l, 0nat,
{
    match l {
        Label::Named(n) => spec_mix(seq![n.left_chev, n.right_chev, expr_span(*n.name_expr)]),
        Label::Empty(s) => s,
    }
}

/// The span of a branch of a conditional.
pub open spec fn branch_span(b: Branch) -> Span
    decreases b, 0nat,
{
    match b {
        Branch::If(b) => spec_mix(seq![b.if_kw, label_span(*b.label), expr_span(*b.condition), b.then_kw, exprs_span(b.body@)]),
        Branch::While(b) => spec_mix(seq![b.while_kw, label_span(*b.label), expr_span(*b.condition), b.do_kw, exprs_span(b.body@)]),
        Branch::Loop(b) => spec_mix(seq![b.loop_kw, label_span(*b.label), exprs_span(b.body@)]),
        Branch::Match(b) => spec_mix(seq![b.match_kw, expr_span(*b.scrutinee), b.with_kw, cases_span(b.cases@)]),
        Branch::Else(b) => spec_mix(seq![label_span(*b.label), exprs_span(b.body@)]),
    }
}

/// The span of a pattern.
pub open spec fn pattern_span(p: Pattern) -> Span
    decreases p, 0nat,
{
    match p {
        Pattern::Missing(s) => s,
        Pattern::Binding(s) => s,
        Pattern::Int(s) => s,
        Pattern::Float(s) => s,
        Pattern::String(s) => s,
        Pattern::True(s) => s,
        Pattern::False(s) => s,
        Pattern::Tuple(left, right, items) => spec_mix(seq![left, right, patterns_span(items@)]),
    }
}

/// The span covering every pattern of `items`.
pub open spec fn patterns_span(items: Seq<Pattern>) -> Span
    decreases items, 0nat,
{
    if items.len() == 0 {
        spec_default_span()
    } else {
        spec_combine(patterns_span(items.drop_last()), pattern_span(items.last()))
    }
}

/// The smallest span covering every span of `spans`, combined from the
/// first to the last; the default span when there is none.
pub fn mix_spans(spans: &[Span]) -> (s: Span)
    ensures
        s == spec_mix(spans@),
{
    let mut acc = Span::default();
    let mut i: usize = 0;
    proof {
        assert(spans@.take(0) =~= Seq::<Span>::empty());
    }
    while i < spans.len()
        invariant
            0 <= i <= spans@.len(),
            acc == spec_mix(spans@.take(i as int)),
        decreases spans@.len() - i,
    {
        proof {
            assert(spans@.take(i + 1).drop_last() =~= spans@.take(i as int));
        }
        acc = Span::combine(acc, spans[i]);
        i = i + 1;
    }
    proof {
        assert(spans@.take(i as int) =~= spans@);
    }
    acc
}

impl Tuple {
    /// The span of this expression.
    pub fn span(&self) -> (s: Span)
        ensures
            s == expr_span(Expr::Tuple(*self)),
        decreases self, 1nat,
    {
        let p1 = exprs_span_of(&self.items);
        let parts = [self.left_paren, p1, self.right_paren];
        proof {
            assert(parts@ =~= seq![self.left_paren, p1, self.right_paren]);
        }
        mix_spans(&parts)
    }
}

impl Array {
    /// The span of this expression.
    pub fn span(&self) -> (s: Span)
        ensures
            s == expr_span(Expr::Array(*self)),
        decreases self, 1nat,
    {
        let p1 = exprs_span_of(&self.items);
        let parts = [self.left_bracket, p1, self.right_bracket];
        proof {
            assert(parts@ =~= seq![self.left_bracket, p1, self.right_bracket]);
        }
        mix_spans(&parts)
    }
}

impl Block {
    /// The span of this expression.
    pub fn span(&self) -> (s: Span)
        ensures
            s == expr_span(Expr::Block(*self)),
        decreases self, 1nat,
    {
        let p1 = self.label.span();
        let p2 = exprs_span_of(&self.items);
        let parts = [self.do_kw, p1, p2, self.end_kw];
        proof {
            assert(parts@ =~= seq![self.do_kw, p1, p2, self.end_kw]);
        }
        mix_spans(&parts)
    }
}

impl Conditional {
    /// The span of this expression.
    pub fn span(&self) -> (s: Span)
        ensures
            s == expr_span(Expr::Conditional(*self)),
        decreases self, 1nat,
    {
        let p0 = self.first_branch.span();
        let p1 = else_span_of(&self.else_branches);
        let parts = [p0, p1, self.end_kw];
        proof {
            assert(parts@ =~= seq![p0, p1, self.end_kw]);
        }
        mix_spans(&parts)
    }
}

impl Skip {
    /// The span of this expression.
    pub fn span(&self) -> (s: Span)
        ensures
            s == expr_span(Expr::Skip(*self)),
        decreases self, 1nat,
    {
        let p1 = self.label.span();
        let parts = [self.skip_kw, p1];
        proof {
            assert(parts@ =~= seq![self.skip_kw, p1]);
        }
        mix_spans(&parts)
    }
}

impl Call {
    /// The span of this expression.
    pub fn span(&self) -> (s: Span)
        ensures
            s == expr_span(Expr::Call(*self)),
        decreases self, 1nat,
    {
        let p0 = self.callee.span();
        let p2 = exprs_span_of(&self.args);
        let parts = [p0, self.left_paren, p2, self.right_paren];
        proof {
            assert(parts@ =~= seq![p0, self.left_paren, p2, self.right_paren]);
        }
        mix_spans(&parts)
    }
}

impl Index {
    /// The span of this expression.
    pub fn span(&self) -> (s: Span)
        ensures
            s == expr_span(Expr::Index(*self)),
        decreases self, 1nat,
    {
        let p0 = self.indexed.span();
        let p2 = exprs_span_of(&self.indices);
        let parts = [p0, self.left_bracket, p2, self.right_bracket];
        proof {
            assert(parts@ =~= seq![p0, self.left_bracket, p2, self.right_bracket]);
        }
        mix_spans(&parts)
    }
}

impl Access {
    /// The span of this expression.
    pub fn span(&self) -> (s: Span)
        ensures
            s == expr_span(Expr::Access(*self)),
        decreases self, 1nat,
    {
        let p0 = self.accessed.span();
        let p2 = self.accessor.span();
        let parts = [p0, self.dot, p2];
        proof {
            assert(parts@ =~= seq![p0, self.dot, p2]);
        }
        mix_spans(&parts)
    }
}

impl Pub {
    /// The span of this expression.
    pub fn span(&self) -> (s: Span)
        ensures
            s == expr_span(Expr::Pub(*self)),
        decreases self, 1nat,
    {
        let p1 = self.expr.span();
        let parts = [self.pub_kw, p1];
        proof {
            assert(parts@ =~= seq![self.pub_kw, p1]);
        }
        mix_spans(&parts)
    }
}

impl Alias {
    /// The span of this expression.
    pub fn span(&self) -> (s: Span)
        ensures
            s == expr_span(Expr::Alias(*self)),
        decreases self, 1nat,
    {
        let p1 = self.path.span();
        let parts = [self.alias_kw, p1, self.as_kw, self.name];
        proof {
            assert(parts@ =~= seq![self.alias_kw, p1, self.as_kw, self.name]);
        }
        mix_spans(&parts)
    }
}

impl Import {
    /// The span of this expression.
    pub fn span(&self) -> (s: Span)
        ensures
            s == expr_span(Expr::Import(*self)),
        decreases self, 1nat,
    {
        let p1 = queries_span_of(&self.queries);
        let parts = [self.import_kw, p1];
        proof {
            assert(parts@ =~= seq![self.import_kw, p1]);
        }
        mix_spans(&parts)
    }
}

impl ImportFrom {
    /// The span of this expression.
    pub fn span(&self) -> (s: Span)
        ensures
            s == expr_span(Expr::ImportFrom(*self)),
        decreases self, 1nat,
    {
        let p1 = queries_span_of(&self.queries);
        let p3 = self.path_query.span();
        let parts = [self.import_kw, p1, self.from_kw, p3];
        proof {
            assert(parts@ =~= seq![self.import_kw, p1, self.from_kw, p3]);
        }
        mix_spans(&parts)
    }
}

impl Record {
    /// The span of this expression.
    pub fn span(&self) -> (s: Span)
        ensures
            s == expr_span(Expr::Record(*self)),
        decreases self, 1nat,
    {
        let p1 = self.signature.span();
        let p2 = fields_span_of(&self.fields);
        let parts = [self.record_kw, p1, p2, self.end_kw];
        proof {
            assert(parts@ =~= seq![self.record_kw, p1, p2, self.end_kw]);
        }
        mix_spans(&parts)
    }
}

impl RecordValue {
    /// The span of this expression.
    pub fn span(&self) -> (s: Span)
        ensures
            s == expr_span(Expr::RecordValue(*self)),
        decreases self, 1nat,
    {
        let p1 = value_fields_span_of(&self.fields);
        let parts = [self.left_brace, p1, self.right_brace];
        proof {
            assert(parts@ =~= seq![self.left_brace, p1, self.right_brace]);
        }
        mix_spans(&parts)
    }
}

impl Union {
    /// The span of this expression.
    pub fn span(&self) -> (s: Span)
        ensures
            s == expr_span(Expr::Union(*self)),
        decreases self, 1nat,
    {
        let p1 = self.signature.span();
        let p2 = exprs_span_of(&self.variants);
        let parts = [self.union_kw, p1, p2, self.end_kw];
        proof {
            assert(parts@ =~= seq![self.union_kw, p1, p2, self.end_kw]);
        }
        mix_spans(&parts)
    }
}

impl Class {
    /// The span of this expression.
    pub fn span(&self) -> (s: Span)
        ensures
            s == expr_span(Expr::Class(*self)),
        decreases self, 1nat,
    {
        let p1 = self.signature.span();
        let p2 = class_items_span_of(&self.items);
        let parts = [self.class_kw, p1, p2, self.end_kw];
        proof {
            assert(parts@ =~= seq![self.class_kw, p1, p2, self.end_kw]);
        }
        mix_spans(&parts)
    }
}

impl Have {
    /// The span of this expression.
    pub fn span(&self) -> (s: Span)
        ensures
            s == expr_span(Expr::Have(*self)),
        decreases self, 1nat,
    {
        let p1 = self.class.span();
        let p2 = exprs_span_of(&self.items);
        let parts = [self.have_kw, p1, p2, self.end_kw];
        proof {
            assert(parts@ =~= seq![self.have_kw, p1, p2, self.end_kw]);
        }
        mix_spans(&parts)
    }
}

impl Binary {
    /// The span of this expression.
    pub fn span(&self) -> (s: Span)
        ensures
            s == expr_span(Expr::Binary(*self)),
        decreases self, 1nat,
    {
        let p0 = self.left.span();
        let p2 = self.right.span();
        let parts = [p0, self.op_tok, p2];
        proof {
            assert(parts@ =~= seq![p0, self.op_tok, p2]);
        }
        mix_spans(&parts)
    }
}

impl Unary {
    /// The span of this expression.
    pub fn span(&self) -> (s: Span)
        ensures
            s == expr_span(Expr::Unary(*self)),
        decreases self, 1nat,
    {
        let p1 = self.arg.span();
        let parts = [self.op_tok, p1];
        proof {
            assert(parts@ =~= seq![self.op_tok, p1]);
        }
        mix_spans(&parts)
    }
}

impl ArrayType {
    /// The span of this expression.
    pub fn span(&self) -> (s: Span)
        ensures
            s == expr_span(Expr::ArrayType(*self)),
        decreases self, 1nat,
    {
        let p2 = self.ty.span();
        let parts = [self.left_bracket, self.right_bracket, p2];
        proof {
            assert(parts@ =~= seq![self.left_bracket, self.right_bracket, p2]);
        }
        mix_spans(&parts)
    }
}

impl Break {
    /// The span of this expression.
    pub fn span(&self) -> (s: Span)
        ensures
            s == expr_span(Expr::Break(*self)),
        decreases self, 1nat,
    {
        let p1 = self.label.span();
        let p2 = match &self.expr {
            Some(e) => {
                let x = e.span();
                proof {
                    assert(self.expr == Some(*e));
                }
                x
            },
            None => Span::default(),
        };
        let parts = [self.break_kw, p1, p2];
        proof {
            assert(p2 == opt_expr_span(self.expr));
            assert(parts@ =~= seq![self.break_kw, p1, p2]);
        }
        mix_spans(&parts)
    }
}

impl Let {
    /// The span of this expression.
    pub fn span(&self) -> (s: Span)
        ensures
            s == expr_span(Expr::Let(*self)),
        decreases self, 1nat,
    {
        let p1 = self.pattern.span();
        let p2 = match self.assign {
            Some(a) => a,
            None => Span::default(),
        };
        let p3 = self.value.span();
        let parts = [self.let_kw, p1, p2, p3];
        proof {
            assert(parts@ =~= seq![self.let_kw, p1, p2, p3]);
        }
        mix_spans(&parts)
    }
}

impl Fun {
    /// The span of this expression.
    pub fn span(&self) -> (s: Span)
        ensures
            s == expr_span(Expr::Fun(*self)),
        decreases self, 1nat,
    {
        let p1 = self.signature.span();
        let p2 = match self.maps {
            Some(m) => m,
            None => Span::default(),
        };
        let p3 = self.value.span();
        let parts = [self.fun_kw, p1, p2, p3];
        proof {
            assert(parts@ =~= seq![self.fun_kw, p1, p2, p3]);
        }
        mix_spans(&parts)
    }
}

impl Expr {
    /// The span of this expression.
    pub fn span(&self) -> (s: Span)
        ensures
            s == expr_span(*self),
        decreases self, 2nat,
    {
        match self {
            Expr::Missing(e) => e.span,
            Expr::Int(e) => e.span,
            Expr::Float(e) => e.span,
            Expr::String(e) => e.span,
            Expr::Builtin(e) => e.span,
            Expr::True(e) => e.span,
            Expr::False(e) => e.span,
            Expr::Underscores(e) => e.span,
            Expr::Var(e) => e.span,
            Expr::Super(e) => e.span,
            Expr::Tuple(e) => e.span(),
            Expr::Array(e) => e.span(),
            Expr::Block(e) => e.span(),
            Expr::Conditional(e) => e.span(),
            Expr::Skip(e) => e.span(),
            Expr::Call(e) => e.span(),
            Expr::Index(e) => e.span(),
            Expr::Access(e) => e.span(),
            Expr::Pub(e) => e.span(),
            Expr::Alias(e) => e.span(),
            Expr::Import(e) => e.span(),
            Expr::ImportFrom(e) => e.span(),
            Expr::Record(e) => e.span(),
            Expr::RecordValue(e) => e.span(),
            Expr::Union(e) => e.span(),
            Expr::Class(e) => e.span(),
            Expr::Have(e) => e.span(),
            Expr::Binary(e) => e.span(),
            Expr::Unary(e) => e.span(),
            Expr::ArrayType(e) => e.span(),
            Expr::Break(e) => e.span(),
            Expr::Let(e) => e.span(),
            Expr::Fun(e) => e.span(),
        }
    }
}

impl Label {
    /// The span of this label.
    pub fn span(&self) -> (s: Span)
        ensures
            s == label_span(*self),
        decreases self, 1nat,
    {
        match self {
            Label::Named(named) => {
                let p2 = named.name_expr.span();
                let parts = [named.left_chev, named.right_chev, p2];
                proof {
                    assert(parts@ =~= seq![named.left_chev, named.right_chev, p2]);
                }
                mix_spans(&parts)
            },
            Label::Empty(span) => *span,
        }
    }
}

impl Branch {
    /// The span of this branch.
    pub fn span(&self) -> (s: Span)
        ensures
            s == branch_span(*self),
        decreases self, 1nat,
    {
        match self {
            Branch::If(b) => {
                let p1 = b.label.span();
                let p2 = b.condition.span();
                let p4 = exprs_span_of(&b.body);
                let parts = [b.if_kw, p1, p2, b.then_kw, p4];
                proof {
                    assert(parts@ =~= seq![b.if_kw, p1, p2, b.then_kw, p4]);
                }
                mix_spans(&parts)
            },
            Branch::While(b) => {
                let p1 = b.label.span();
                let p2 = b.condition.span();
                let p4 = exprs_span_of(&b.body);
                let parts = [b.while_kw, p1, p2, b.do_kw, p4];
                proof {
                    assert(parts@ =~= seq![b.while_kw, p1, p2, b.do_kw, p4]);
                }
                mix_spans(&parts)
            },
            Branch::Loop(b) => {
                let p1 = b.label.span();
                let p2 = exprs_span_of(&b.body);
                let parts = [b.loop_kw, p1, p2];
                proof {
                    assert(parts@ =~= seq![b.loop_kw, p1, p2]);
                }
                mix_spans(&parts)
            },
            Branch::Match(b) => {
                let p1 = b.scrutinee.span();
                let p3 = cases_span_of(&b.cases);
                let parts = [b.match_kw, p1, b.with_kw, p3];
                proof {
                    assert(parts@ =~= seq![b.match_kw, p1, b.with_kw, p3]);
                }
                mix_spans(&parts)
            },
            Branch::Else(b) => {
                let p0 = b.label.span();
                let p1 = exprs_span_of(&b.body);
                let parts = [p0, p1];
                proof {
                    assert(parts@ =~= seq![p0, p1]);
                }
                mix_spans(&parts)
            },
        }
    }
}

impl Pattern {
    /// The span of this pattern.
    pub fn span(&self) -> (s: Span)
        ensures
            s == pattern_span(*self),
        decreases self, 1nat,
    {
        match self {
            Pattern::Missing(span) => *span,
            Pattern::Binding(span) => *span,
            Pattern::Int(span) => *span,
            Pattern::Float(span) => *span,
            Pattern::String(span) => *span,
            Pattern::True(span) => *span,
            Pattern::False(span) => *span,
            Pattern::Tuple(left, right, items) => {
                let p2 = patterns_span_of(items);
                let parts = [*left, *right, p2];
                proof {
                    assert(parts@ =~= seq![*left, *right, p2]);
                }
                mix_spans(&parts)
            },
        }
    }
}

/// The span covering every element of `items`.
#[verifier::loop_isolation(false)]
fn exprs_span_of(items: &Vec<Expr>) -> (s: Span)
    ensures
        s == exprs_span(items@),
    decreases items, 0nat,
{
    let mut acc = Span::default();
    let mut i: usize = 0;
    proof {
        assert(items@.take(0) =~= Seq::<Expr>::empty());
    }
    while i < items.len()
        invariant
            0 <= i <= items@.len(),
            acc == exprs_span(items@.take(i as int)),
        decreases items@.len() - i,
    {
        proof {
            assert(decreases_to!(items => items[i as int]));
            assert(items@.take(i + 1).drop_last() =~= items@.take(i as int));
            assert(items@.take(i + 1).last() == items@[i as int]);
        }
        let item = &items[i];
        let part = item.span();
        acc = Span::combine(acc, part);
        i = i + 1;
    }
    proof {
        assert(items@.take(i as int) =~= items@);
    }
    acc
}

/// The span covering every element of `items`.
#[verifier::loop_isolation(false)]
fn else_span_of(items: &Vec<(Span, Branch)>) -> (s: Span)
    ensures
        s == else_span(items@),
    decreases items, 0nat,
{
    let mut acc = Span::default();
    let mut i: usize = 0;
    proof {
        assert(items@.take(0) =~= Seq::<(Span, Branch)>::empty());
    }
    while i < items.len()
        invariant
            0 <= i <= items@.len(),
            acc == else_span(items@.take(i as int)),
        decreases items@.len() - i,
    {
        proof {
            assert(decreases_to!(items => items[i as int]));
            assert(items@.take(i + 1).drop_last() =~= items@.take(i as int));
            assert(items@.take(i + 1).last() == items@[i as int]);
        }
        let item = &items[i];
        let b = item.1.span();
        let part = {
            let parts = [item.0, b];
            proof {
                assert(parts@ =~= seq![item.0, b]);
            }
            mix_spans(&parts)
        };
        acc = Span::combine(acc, part);
        i = i + 1;
    }
    proof {
        assert(items@.take(i as int) =~= items@);
    }
    acc
}

/// The span covering every element of `items`.
#[verifier::loop_isolation(false)]
fn cases_span_of(items: &Vec<MatchCase>) -> (s: Span)
    ensures
        s == cases_span(items@),
    decreases items, 0nat,
{
    let mut acc = Span::default();
    let mut i: usize = 0;
    proof {
        assert(items@.take(0) =~= Seq::<MatchCase>::empty());
    }
    while i < items.len()
        invariant
            0 <= i <= items@.len(),
            acc == cases_span(items@.take(i as int)),
        decreases items@.len() - i,
    {
        proof {
            assert(decreases_to!(items => items[i as int]));
            assert(items@.take(i + 1).drop_last() =~= items@.take(i as int));
            assert(items@.take(i + 1).last() == items@[i as int]);
        }
        let item = &items[i];
        let a = item.pattern.span();
        let c = item.value.span();
        let part = {
            let parts = [a, item.maps, c];
            proof {
                assert(parts@ =~= seq![a, item.maps, c]);
            }
            mix_spans(&parts)
        };
        acc = Span::combine(acc, part);
        i = i + 1;
    }
    proof {
        assert(items@.take(i as int) =~= items@);
    }
    acc
}

/// The span covering every element of `items`.
#[verifier::loop_isolation(false)]
fn queries_span_of(items: &Vec<ImportQuery>) -> (s: Span)
    ensures
        s == queries_span(items@),
    decreases items, 0nat,
{
    let mut acc = Span::default();
    let mut i: usize = 0;
    proof {
        assert(items@.take(0) =~= Seq::<ImportQuery>::empty());
    }
    while i < items.len()
        invariant
            0 <= i <= items@.len(),
            acc == queries_span(items@.take(i as int)),
        decreases items@.len() - i,
    {
        proof {
            assert(decreases_to!(items => items[i as int]));
            assert(items@.take(i + 1).drop_last() =~= items@.take(i as int));
            assert(items@.take(i + 1).last() == items@[i as int]);
        }
        let item = &items[i];
        let q = item.query.span();
        let part = match item.alias {
            Some(alias) => {
                let parts = [q, alias];
                proof {
                    assert(parts@ =~= seq![q, alias]);
                }
                mix_spans(&parts)
            },
            None => q,
        };
        acc = Span::combine(acc, part);
        i = i + 1;
    }
    proof {
        assert(items@.take(i as int) =~= items@);
    }
    acc
}

/// The span covering every element of `items`.
#[verifier::loop_isolation(false)]
fn fields_span_of(items: &Vec<(Expr, Expr)>) -> (s: Span)
    ensures
        s == fields_span(items@),
    decreases items, 0nat,
{
    let mut acc = Span::default();
    let mut i: usize = 0;
    proof {
        assert(items@.take(0) =~= Seq::<(Expr, Expr)>::empty());
    }
    while i < items.len()
        invariant
            0 <= i <= items@.len(),
            acc == fields_span(items@.take(i as int)),
        decreases items@.len() - i,
    {
        proof {
            assert(decreases_to!(items => items[i as int]));
            assert(items@.take(i + 1).drop_last() =~= items@.take(i as int));
            assert(items@.take(i + 1).last() == items@[i as int]);
        }
        let item = &items[i];
        let a = item.0.span();
        let b = item.1.span();
        let part = {
            let parts = [a, b];
            proof {
                assert(parts@ =~= seq![a, b]);
            }
            mix_spans(&parts)
        };
        acc = Span::combine(acc, part);
        i = i + 1;
    }
    proof {
        assert(items@.take(i as int) =~= items@);
    }
    acc
}

/// The span covering every element of `items`.
#[verifier::loop_isolation(false)]
fn value_fields_span_of(items: &Vec<(Expr, Option<Expr>)>) -> (s: Span)
    ensures
        s == value_fields_span(items@),
    decreases items, 0nat,
{
    let mut acc = Span::default();
    let mut i: usize = 0;
    proof {
        assert(items@.take(0) =~= Seq::<(Expr, Option<Expr>)>::empty());
    }
    while i < items.len()
        invariant
            0 <= i <= items@.len(),
            acc == value_fields_span(items@.take(i as int)),
        decreases items@.len() - i,
    {
        proof {
            assert(decreases_to!(items => items[i as int]));
            assert(items@.take(i + 1).drop_last() =~= items@.take(i as int));
            assert(items@.take(i + 1).last() == items@[i as int]);
        }
        let item = &items[i];
        let part = item.0.span();
        acc = Span::combine(acc, part);
        i = i + 1;
    }
    proof {
        assert(items@.take(i as int) =~= items@);
    }
    acc
}

/// The span covering every element of `items`.
#[verifier::loop_isolation(false)]
fn class_items_span_of(items: &Vec<(ClassItem, Expr, Expr)>) -> (s: Span)
    ensures
        s == class_items_span(items@),
    decreases items, 0nat,
{
    let mut acc = Span::default();
    let mut i: usize = 0;
    proof {
        assert(items@.take(0) =~= Seq::<(ClassItem, Expr, Expr)>::empty());
    }
    while i < items.len()
        invariant
            0 <= i <= items@.len(),
            acc == class_items_span(items@.take(i as int)),
        decreases items@.len() - i,
    {
        proof {
            assert(decreases_to!(items => items[i as int]));
            assert(items@.take(i + 1).drop_last() =~= items@.take(i as int));
            assert(items@.take(i + 1).last() == items@[i as int]);
        }
        let item = &items[i];
        let a = item.1.span();
        let b = item.2.span();
        let part = {
            let parts = [a, b];
            proof {
                assert(parts@ =~= seq![a, b]);
            }
            mix_spans(&parts)
        };
        acc = Span::combine(acc, part);
        i = i + 1;
    }
    proof {
        assert(items@.take(i as int) =~= items@);
    }
    acc
}

/// The span covering every element of `items`.
#[verifier::loop_isolation(false)]
fn patterns_span_of(items: &Vec<Pattern>) -> (s: Span)
    ensures
        s == patterns_span(items@),
    decreases items, 0nat,
{
    let mut acc = Span::default();
    let mut i: usize = 0;
    proof {
        assert(items@.take(0) =~= Seq::<Pattern>::empty());
    }
    while i < items.len()
        invariant
            0 <= i <= items@.len(),
            acc == patterns_span(items@.take(i as int)),
        decreases items@.len() - i,
    {
        proof {
            assert(decreases_to!(items => items[i as int]));
            assert(items@.take(i + 1).drop_last() =~= items@.take(i as int));
            assert(items@.take(i + 1).last() == items@[i as int]);
        }
        let item = &items[i];
        let part = item.span();
        acc = Span::combine(acc, part);
        i = i + 1;
    }
    proof {
        assert(items@.take(i as int) =~= items@);
    }
    acc
}

} // verus!
