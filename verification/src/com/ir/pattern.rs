//! Patterns after checking: what a value is tested against and what it binds.

use vstd::prelude::*;
use crate::com::ir::EntityID;

verus! {

/// A checked pattern. A float literal is held as its IEEE-754 bits.
#[derive(Debug)]
pub enum Pattern {
    Missing,
    Binding(EntityID),
    Int(i64),
    Float(u64),
    String(String),
    Bool(bool),
    Tuple(Vec<Pattern>),
    Variant(EntityID, usize, Option<Vec<Pattern>>),
}

/// The content of a checked pattern.
pub enum PatternModel {
    Missing,
    Binding(EntityID),
    Int(i64),
    Float(u64),
    String(Seq<char>),
    Bool(bool),
    Tuple(Seq<PatternModel>),
    Variant(EntityID, usize, Option<Seq<PatternModel>>),
}

/// What a pattern tests the head of a value against.
#[derive(Debug, Clone, PartialEq)]
pub enum Constructor {
    Missing,
    Int(i64),
    Float(u64),
    String(String),
    Bool(bool),
    Tuple(usize),
    Variant(EntityID, usize),
}

impl Pattern {
    pub open spec fn model(self) -> PatternModel
        decreases self,
    {
        match self {
            Pattern::Missing => PatternModel::Missing,
            Pattern::Binding(id) => PatternModel::Binding(id),
            Pattern::Int(i) => PatternModel::Int(i),
            Pattern::Float(f) => PatternModel::Float(f),
            Pattern::String(s) => PatternModel::String(s@),
            Pattern::Bool(b) => PatternModel::Bool(b),
            Pattern::Tuple(items) => PatternModel::Tuple(pattern_models(items@)),
            Pattern::Variant(id, tag, None) => PatternModel::Variant(id, tag, None),
            Pattern::Variant(id, tag, Some(items)) => PatternModel::Variant(id, tag, Some(pattern_models(items@))),
        }
    }
}

/// The content of each of `items`, in order.
pub open spec fn pattern_models(items: Seq<Pattern>) -> Seq<PatternModel>
    decreases items,
{
    if items.len() == 0 {
        Seq::empty()
    } else {
        pattern_models(items.drop_last()).push(items.last().model())
    }
}

pub proof fn lemma_pattern_models_len(items: Seq<Pattern>)
    ensures
        pattern_models(items).len() == items.len(),
    decreases items.len(),
{
    if items.len() > 0 {
        lemma_pattern_models_len(items.drop_last());
    }
}

pub proof fn lemma_pattern_models_index(items: Seq<Pattern>, i: int)
    requires
        0 <= i < items.len(),
    ensures
        pattern_models(items)[i] == items[i].model(),
    decreases items.len(),
{
    lemma_pattern_models_len(items.drop_last());
    if i < items.len() - 1 {
        lemma_pattern_models_index(items.drop_last(), i);
    }
}

/// Whether a pattern matches every value of its type: bindings do, and
/// tuples of such patterns.
pub open spec fn exhaustive(p: PatternModel) -> bool
    decreases p, 0nat,
{
    match p {
        PatternModel::Binding(_) => true,
        PatternModel::Tuple(items) => all_exhaustive(items),
        _ => false,
    }
}

/// A value that a checked pattern is matched against: a literal, a tuple,
/// or a variant with its tag and, where it has them, its items.
pub enum PatternValue {
    Int(i64),
    Float(u64),
    String(Seq<char>),
    Bool(bool),
    Tuple(Seq<PatternValue>),
    Variant(usize, Option<Seq<PatternValue>>),
}

/// Whether `v` is of the type that `p` tests: a literal pattern takes a
/// value of its literal's type, a tuple pattern a tuple with one item of the
/// right type per pattern, a variant pattern a variant; a binding or a
/// missing pattern takes any value.
pub open spec fn fits_shape(p: PatternModel, v: PatternValue) -> bool
    decreases p, 0nat,
{
    match p {
        PatternModel::Int(_) => v is Int,
        PatternModel::Float(_) => v is Float,
        PatternModel::String(_) => v is String,
        PatternModel::Bool(_) => v is Bool,
        PatternModel::Tuple(items) => match v {
            PatternValue::Tuple(vs) => fits_all(items, vs),
            _ => false,
        },
        PatternModel::Variant(_, _, _) => v is Variant,
        _ => true,
    }
}

/// Whether `vs` has one value per pattern of `items`, each of its type.
pub open spec fn fits_all(items: Seq<PatternModel>, vs: Seq<PatternValue>) -> bool
    decreases items, 0nat,
{
    items.len() == vs.len()
        && (items.len() == 0 || (fits_shape(items[0], vs[0]) && fits_all(items.drop_first(), vs.drop_first())))
}

/// Whether `p` matches `v`: a binding matches any value, a missing pattern
/// none, a literal the equal value, a tuple a tuple whose items it matches
/// one by one, a variant a variant of its tag whose items it matches.
pub open spec fn pattern_matches(p: PatternModel, v: PatternValue) -> bool
    decreases p, 0nat,
{
    match p {
        PatternModel::Missing => false,
        PatternModel::Binding(_) => true,
        PatternModel::Int(i) => v == PatternValue::Int(i),
        PatternModel::Float(f) => v == PatternValue::Float(f),
        PatternModel::String(s) => v == PatternValue::String(s),
        PatternModel::Bool(b) => v == PatternValue::Bool(b),
        PatternModel::Tuple(items) => match v {
            PatternValue::Tuple(vs) => matches_all(items, vs),
            _ => false,
        },
        PatternModel::Variant(_, tag, None) => v == PatternValue::Variant(tag, None),
        PatternModel::Variant(_, tag, Some(items)) => match v {
            PatternValue::Variant(t, Some(vs)) => t == tag && matches_all(items, vs),
            _ => false,
        },
    }
}

/// Whether each pattern of `items` matches the value of `vs` at its place.
pub open spec fn matches_all(items: Seq<PatternModel>, vs: Seq<PatternValue>) -> bool
    decreases items, 0nat,
{
    items.len() == vs.len()
        && (items.len() == 0 || (pattern_matches(items[0], vs[0]) && matches_all(items.drop_first(), vs.drop_first())))
}

/// An exhaustive pattern matches every value of the type it tests.
pub proof fn lemma_exhaustive_matches(p: PatternModel, v: PatternValue)
    requires
        exhaustive(p),
        fits_shape(p, v),
    ensures
        pattern_matches(p, v),
    decreases p, 0nat,
{
    match p {
        PatternModel::Tuple(items) => {
            if let PatternValue::Tuple(vs) = v {
                lemma_all_exhaustive_match(items, vs);
            }
        },
        _ => {},
    }
}

proof fn lemma_all_exhaustive_match(items: Seq<PatternModel>, vs: Seq<PatternValue>)
    requires
        all_exhaustive(items),
        fits_all(items, vs),
    ensures
        matches_all(items, vs),
    decreases items, 0nat,
{
    if items.len() > 0 {
        lemma_exhaustive_matches(items[0], vs[0]);
        lemma_all_exhaustive_match(items.drop_first(), vs.drop_first());
    }
}

/// A literal pattern is never exhaustive: some value of its type differs
/// from its literal, and it does not match that value.
pub proof fn lemma_literal_refutable(p: PatternModel)
    requires
        p is Int || p is Float || p is String || p is Bool,
    ensures
        !exhaustive(p),
        exists|v: PatternValue| fits_shape(p, v) && !pattern_matches(p, v),
{
    let w = match p {
        PatternModel::Int(i) => PatternValue::Int(if i == 0 { 1 } else { 0 }),
        PatternModel::Float(f) => PatternValue::Float(if f == 0 { 1 } else { 0 }),
        PatternModel::String(s) => PatternValue::String(s.push('a')),
        PatternModel::Bool(b) => PatternValue::Bool(!b),
        _ => PatternValue::Bool(true),
    };
    if let PatternModel::String(s) = p {
        assert(s.push('a').len() != s.len());
    }
    assert(fits_shape(p, w) && !pattern_matches(p, w));
    if exhaustive(p) {
        lemma_exhaustive_matches(p, w);
    }
}

/// Whether the value `v` has the head that constructor `c` tests for: the
/// same literal, a tuple of as many items, a variant of the same tag; a
/// missing constructor tests nothing.
pub open spec fn has_head(c: Constructor, v: PatternValue) -> bool {
    match c {
        Constructor::Missing => true,
        Constructor::Int(i) => v == PatternValue::Int(i),
        Constructor::Float(f) => v == PatternValue::Float(f),
        Constructor::String(s) => v == PatternValue::String(s@),
        Constructor::Bool(b) => v == PatternValue::Bool(b),
        Constructor::Tuple(n) => v matches PatternValue::Tuple(vs) && vs.len() == n,
        Constructor::Variant(_, tag) => v matches PatternValue::Variant(t, _) && t == tag,
    }
}

/// The items of a tuple or variant value; none for any other value.
pub open spec fn value_parts(v: PatternValue) -> Seq<PatternValue> {
    match v {
        PatternValue::Tuple(vs) => vs,
        PatternValue::Variant(_, Some(vs)) => vs,
        _ => Seq::empty(),
    }
}

/// A value that a pattern matches has the head that the pattern's
/// constructor tests for, and the parts of a tuple or variant value are
/// matched one by one by the pattern's constructor arguments.
pub proof fn lemma_constructor_of_match(p: Pattern, v: PatternValue)
    requires
        pattern_matches(p.model(), v),
    ensures
        has_head(constructor_of(p), v),
        p is Tuple || p is Variant ==> matches_all(constructor_args_of(p.model()), value_parts(v)),
{
    match p {
        Pattern::Tuple(items) => {
            lemma_pattern_models_len(items@);
            assert(items@.len() == items.len());
        },
        _ => {},
    }
}

/// Whether every pattern of `items` is exhaustive.
pub open spec fn all_exhaustive(items: Seq<PatternModel>) -> bool
    decreases items, 0nat,
{
    items.len() == 0 || (exhaustive(items[0]) && all_exhaustive(items.drop_first()))
}

proof fn lemma_all_exhaustive(items: Seq<PatternModel>)
    ensures
        all_exhaustive(items) <==> forall|i: int| 0 <= i < items.len() ==> #[trigger] exhaustive(items[i]),
    decreases items.len(),
{
    if items.len() > 0 {
        let rest = items.drop_first();
        lemma_all_exhaustive(rest);
        assert(all_exhaustive(items) == (exhaustive(items[0]) && all_exhaustive(rest)));
        assert forall|k: int| 0 <= k < rest.len() implies rest[k] == items[k + 1] by {}
        if forall|i: int| 0 <= i < items.len() ==> #[trigger] exhaustive(items[i]) {
            assert forall|k: int| 0 <= k < rest.len() implies #[trigger] exhaustive(rest[k]) by {
                assert(exhaustive(items[k + 1]));
            }
            assert(exhaustive(items[0]));
        }
        if all_exhaustive(items) {
            assert forall|i: int| 0 <= i < items.len() implies #[trigger] exhaustive(items[i]) by {
                if i > 0 {
                    assert(exhaustive(rest[i - 1]));
                }
            }
        }
    }
}

/// The constructor that a pattern tests for; a binding tests for none.
pub open spec fn constructor_of(p: Pattern) -> Constructor {
    match p {
        Pattern::Missing => Constructor::Missing,
        Pattern::Binding(_) => Constructor::Missing,
        Pattern::Int(i) => Constructor::Int(i),
        Pattern::Float(f) => Constructor::Float(f),
        Pattern::String(s) => Constructor::String(s),
        Pattern::Bool(b) => Constructor::Bool(b),
        Pattern::Tuple(items) => Constructor::Tuple(items@.len() as usize),
        Pattern::Variant(id, var, _) => Constructor::Variant(id, var),
    }
}

/// The sub-patterns a pattern tests the fields of a value against.
pub open spec fn constructor_args_of(p: PatternModel) -> Seq<PatternModel> {
    match p {
        PatternModel::Tuple(items) => items,
        PatternModel::Variant(_, _, Some(items)) => items,
        _ => Seq::empty(),
    }
}

/// The entities that a pattern binds, from left to right.
pub open spec fn bindings_of(p: PatternModel) -> Seq<EntityID>
    decreases p, 0nat,
{
    match p {
        PatternModel::Binding(id) => seq![id],
        PatternModel::Tuple(items) => bindings_of_all(items),
        PatternModel::Variant(_, _, Some(items)) => bindings_of_all(items),
        _ => Seq::empty(),
    }
}

/// The entities that each of `items` binds, one after the other.
pub open spec fn bindings_of_all(items: Seq<PatternModel>) -> Seq<EntityID>
    decreases items, 0nat,
{
    if items.len() == 0 {
        Seq::empty()
    } else {
        bindings_of(items[0]) + bindings_of_all(items.drop_first())
    }
}

/// Binding the items one after the other adds each one's bindings at the end.
proof fn lemma_bindings_of_all_snoc(items: Seq<PatternModel>, last: PatternModel)
    ensures
        bindings_of_all(items.push(last)) == bindings_of_all(items) + bindings_of(last),
    decreases items.len(),
{
    if items.len() == 0 {
        assert(items.push(last).drop_first() =~= Seq::<PatternModel>::empty());
        assert(bindings_of_all(items.push(last)) =~= bindings_of(last) + bindings_of_all(Seq::empty()));
    } else {
        lemma_bindings_of_all_snoc(items.drop_first(), last);
        assert(items.push(last).drop_first() =~= items.drop_first().push(last));
        assert(bindings_of(items[0]) + (bindings_of_all(items.drop_first()) + bindings_of(last))
            =~= (bindings_of(items[0]) + bindings_of_all(items.drop_first())) + bindings_of(last));
    }
}

impl Clone for Pattern {
    fn clone(&self) -> (res: Self)
        ensures
            res.model() == self.model(),
        decreases self, 0nat,
    {
        match self {
            Pattern::Missing => Pattern::Missing,
            Pattern::Binding(id) => Pattern::Binding(*id),
            Pattern::Int(i) => Pattern::Int(*i),
            Pattern::Float(f) => Pattern::Float(*f),
            Pattern::String(s) => Pattern::String(s.clone()),
            Pattern::Bool(b) => Pattern::Bool(*b),
            Pattern::Tuple(items) => Pattern::Tuple(clone_patterns(items)),
            Pattern::Variant(id, var, None) => Pattern::Variant(*id, *var, None),
            Pattern::Variant(id, var, Some(items)) => Pattern::Variant(*id, *var, Some(clone_patterns(items))),
        }
    }
}

/// A copy of each of `items`, in order.
pub fn clone_patterns(items: &Vec<Pattern>) -> (res: Vec<Pattern>)
    ensures
        pattern_models(res@) == pattern_models(items@),
    decreases items, 0nat,
{
    let mut res: Vec<Pattern> = Vec::new();
    let mut i: usize = 0;
    while i < items.len()
        invariant
            0 <= i <= items.len(),
            pattern_models(res@) == pattern_models(items@.subrange(0, i as int)),
        decreases items.len() - i,
    {
        proof {
            assert(decreases_to!(items => items[i as int]));
        }
        let item = items[i].clone();
        let ghost before = res@;
        res.push(item);
        proof {
            assert(res@.drop_last() =~= before);
            assert(items@.subrange(0, i + 1).drop_last() =~= items@.subrange(0, i as int));
        }
        i = i + 1;
    }
    proof {
        assert(items@.subrange(0, items.len() as int) =~= items@);
    }
    res
}

impl Pattern {
    /// Whether this pattern matches every value of its type.
    #[verifier::loop_isolation(false)]
    pub fn is_exhaustive(&self) -> (b: bool)
        ensures
            b == exhaustive(self.model()),
            self is Int || self is Float || self is String || self is Bool ==> !b,
            self is Binding ==> b,
        decreases self,
    {
        match self {
            Pattern::Missing => false,
            Pattern::Binding(_) => true,
            Pattern::Int(_) => false,
            Pattern::Float(_) => false,
            Pattern::String(_) => false,
            Pattern::Bool(_) => false,
            Pattern::Tuple(items) => {
                proof {
                    lemma_all_exhaustive(pattern_models(items@));
                    lemma_pattern_models_len(items@);
                }
                let mut i: usize = 0;
                while i < items.len()
                    invariant
                        0 <= i <= items@.len(),
                        forall|j: int| 0 <= j < i ==> #[trigger] exhaustive(pattern_models(items@)[j]),
                    decreases items.len() - i,
                {
                    proof {
                        assert(decreases_to!(items => items[i as int]));
                        lemma_pattern_models_index(items@, i as int);
                    }
                    if !items[i].is_exhaustive() {
                        return false;
                    }
                    i = i + 1;
                }
                true
            },
            Pattern::Variant(_, _, _) => false,
        }
    }

    /// The constructor that this pattern tests for.
    pub fn constructor(&self) -> (c: Constructor)
        ensures
            c == constructor_of(*self),
    {
        match self {
            Pattern::Missing => Constructor::Missing,
            Pattern::Binding(_) => Constructor::Missing,
            Pattern::Int(i) => Constructor::Int(*i),
            Pattern::Float(f) => Constructor::Float(*f),
            Pattern::String(s) => Constructor::String(s.clone()),
            Pattern::Bool(b) => Constructor::Bool(*b),
            Pattern::Tuple(items) => Constructor::Tuple(items.len()),
            Pattern::Variant(id, var, _) => Constructor::Variant(*id, *var),
        }
    }

    /// The sub-patterns this pattern tests the fields of a value against.
    pub fn constructor_args(&self) -> (args: Vec<Pattern>)
        ensures
            pattern_models(args@) == constructor_args_of(self.model()),
    {
        match self {
            Pattern::Tuple(items) => clone_patterns(items),
            Pattern::Variant(_, _, Some(items)) => clone_patterns(items),
            _ => Vec::new(),
        }
    }

    fn collect_bindings(&self, bindings: &mut Vec<EntityID>)
        ensures
            final(bindings)@ == old(bindings)@ + bindings_of(self.model()),
        decreases self,
    {
        match self {
            Pattern::Binding(id) => bindings.push(*id),
            Pattern::Tuple(items) => Self::collect_all(items, bindings),
            Pattern::Variant(_, _, Some(items)) => Self::collect_all(items, bindings),
            _ => {
                proof {
                    assert(final(bindings)@ =~= old(bindings)@ + bindings_of(self.model()));
                }
            },
        }
    }

    #[verifier::loop_isolation(false)]
    fn collect_all(items: &Vec<Pattern>, bindings: &mut Vec<EntityID>)
        ensures
            final(bindings)@ == old(bindings)@ + bindings_of_all(pattern_models(items@)),
        decreases items,
    {
        let ghost start = bindings@;
        let mut i: usize = 0;
        while i < items.len()
            invariant
                0 <= i <= items@.len(),
                bindings@ == start + bindings_of_all(pattern_models(items@.subrange(0, i as int))),
            decreases items.len() - i,
        {
            proof {
                assert(decreases_to!(items => items[i as int]));
                assert(items@.subrange(0, i + 1).drop_last() =~= items@.subrange(0, i as int));
                lemma_bindings_of_all_snoc(pattern_models(items@.subrange(0, i as int)), items@[i as int].model());
            }
            items[i].collect_bindings(bindings);
            proof {
                let a = bindings_of_all(pattern_models(items@.subrange(0, i as int)));
                assert(start + a + bindings_of(items@[i as int].model()) =~= start + (a + bindings_of(items@[i as int].model())));
            }
            i = i + 1;
        }
        proof {
            assert(items@.subrange(0, items.len() as int) =~= items@);
        }
    }

    /// The entities that this pattern binds, from left to right.
    pub fn get_binding_ids(&self) -> (ids: Vec<EntityID>)
        ensures
            ids@ == bindings_of(self.model()),
    {
        let mut bindings = Vec::new();
        self.collect_bindings(&mut bindings);
        proof {
            assert(Seq::<EntityID>::empty() + bindings_of(self.model()) =~= bindings_of(self.model()));
        }
        bindings
    }
}

} // verus!
