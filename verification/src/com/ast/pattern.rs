//! Patterns of the syntax tree.

use vstd::prelude::*;
use crate::com::loc::Span;

verus! {

/// A pattern, with the spans of its tokens.
#[derive(Debug)]
pub enum Pattern {
    Missing(Span),
    Binding(Span),
    Int(Span),
    Float(Span),
    String(Span),
    True(Span),
    False(Span),
    Tuple(Span, Span, Vec<Pattern>),
}

/// Whether a pattern matches every value: it does unless it holds a literal.
pub open spec fn irrefutable(p: Pattern) -> bool
    decreases p, 0nat,
{
    match p {
        Pattern::Missing(_) => true,
        Pattern::Binding(_) => true,
        Pattern::Int(_) => false,
        Pattern::Float(_) => false,
        Pattern::String(_) => false,
        Pattern::True(_) => false,
        Pattern::False(_) => false,
        Pattern::Tuple(_, _, items) => all_irrefutable(items@),
    }
}

/// Whether every pattern of `items` matches every value.
pub open spec fn all_irrefutable(items: Seq<Pattern>) -> bool
    decreases items, 0nat,
{
    items.len() == 0 || (irrefutable(items[0]) && all_irrefutable(items.drop_first()))
}

/// Which patterns match every value: a binding and a missing pattern do; a
/// literal (an integer, a float, a string, `true` or `false`) does not, as
/// some value differs from it; a tuple does exactly when each of its items
/// does.
pub proof fn lemma_irrefutable_kinds(p: Pattern)
    ensures
        p is Int || p is Float || p is String || p is True || p is False ==> !irrefutable(p),
        p is Binding || p is Missing ==> irrefutable(p),
        p matches Pattern::Tuple(_, _, items) ==>
            (irrefutable(p) <==> forall|i: int| 0 <= i < items@.len() ==> #[trigger] irrefutable(items@[i])),
{
    if let Pattern::Tuple(_, _, items) = p {
        lemma_all_irrefutable(items@);
    }
}

proof fn lemma_all_irrefutable(items: Seq<Pattern>)
    ensures
        all_irrefutable(items) <==> forall|i: int| 0 <= i < items.len() ==> #[trigger] irrefutable(items[i]),
    decreases items.len(),
{
    if items.len() > 0 {
        let rest = items.drop_first();
        lemma_all_irrefutable(rest);
        assert(all_irrefutable(items) == (irrefutable(items[0]) && all_irrefutable(rest)));
        assert forall|k: int| 0 <= k < rest.len() implies rest[k] == items[k + 1] by {}
        if forall|i: int| 0 <= i < items.len() ==> #[trigger] irrefutable(items[i]) {
            assert forall|k: int| 0 <= k < rest.len() implies #[trigger] irrefutable(rest[k]) by {
                assert(irrefutable(items[k + 1]));
            }
            assert(irrefutable(items[0]));
        }
        if all_irrefutable(items) {
            assert forall|i: int| 0 <= i < items.len() implies #[trigger] irrefutable(items[i]) by {
                if i > 0 {
                    assert(irrefutable(rest[i - 1]));
                }
            }
        }
    }
}

impl Pattern {
    /// Whether this pattern matches every value.
    #[verifier::loop_isolation(false)]
    pub fn is_irrefutable(&self) -> (b: bool)
        ensures
            b == irrefutable(*self),
            self is Int || self is Float || self is String || self is True || self is False ==> !b,
            self is Binding || self is Missing ==> b,
        decreases self,
    {
        match self {
            Pattern::Missing(_) => true,
            Pattern::Binding(_) => true,
            Pattern::Int(_) => false,
            Pattern::Float(_) => false,
            Pattern::String(_) => false,
            Pattern::True(_) => false,
            Pattern::False(_) => false,
            Pattern::Tuple(_, _, items) => {
                proof {
                    lemma_all_irrefutable(items@);
                }
                let mut i: usize = 0;
                while i < items.len()
                    invariant
                        0 <= i <= items@.len(),
                        forall|j: int| 0 <= j < i ==> #[trigger] irrefutable(items@[j]),
                    decreases items.len() - i,
                {
                    proof {
                        assert(decreases_to!(items => items[i as int]));
                    }
                    if !items[i].is_irrefutable() {
                        return false;
                    }
                    i = i + 1;
                }
                true
            },
        }
    }
}

} // verus!
