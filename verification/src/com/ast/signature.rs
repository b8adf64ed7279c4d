//! Signatures of functions and of types.

use vstd::prelude::*;
use crate::com::loc::Span;
use crate::com::ast::{Expr, Pattern};

verus! {

/// The signature of a function: its name and its argument lists.
#[derive(Debug)]
pub enum Signature {
    Missing,
    Name(Span, Box<Signature>),
    Args(Vec<Pattern>, Box<Signature>),
    Empty,
}

/// The signature of a type: its argument lists.
#[derive(Debug)]
pub enum TypeSignature {
    Missing,
    Args(Vec<Expr>, Box<TypeSignature>),
    Empty,
}

/// The argument patterns of a signature, in order.
pub open spec fn arg_patterns_of(s: Signature) -> Seq<Pattern>
    decreases s,
{
    match s {
        Signature::Missing | Signature::Empty => Seq::empty(),
        Signature::Name(_, next) => arg_patterns_of(*next),
        Signature::Args(args, next) => args@ + arg_patterns_of(*next),
    }
}

impl Signature {
    fn collect_arg_patterns<'a>(&'a self, patterns: &mut Vec<&'a Pattern>)
        ensures
            final(patterns)@.map_values(|p: &Pattern| *p) == old(patterns)@.map_values(|p: &Pattern| *p)
                + arg_patterns_of(*self),
        decreases self,
    {
        match self {
            Signature::Missing => {},
            Signature::Name(_, next) => next.collect_arg_patterns(patterns),
            Signature::Args(args, next) => {
                let ghost start = patterns@.map_values(|p: &Pattern| *p);
                let mut i: usize = 0;
                while i < args.len()
                    invariant
                        0 <= i <= args@.len(),
                        patterns@.map_values(|p: &Pattern| *p) == start + args@.subrange(0, i as int),
                    decreases args.len() - i,
                {
                    let ghost before = patterns@;
                    patterns.push(&args[i]);
                    proof {
                        let b = before.map_values(|p: &Pattern| *p);
                        let now = patterns@.map_values(|p: &Pattern| *p);
                        assert(now =~= b.push(args@[i as int]));
                        assert(args@.subrange(0, i + 1) =~= args@.subrange(0, i as int).push(args@[i as int]));
                        assert(now =~= start + args@.subrange(0, i + 1));
                    }
                    i = i + 1;
                }
                proof {
                    assert(args@.subrange(0, args@.len() as int) =~= args@);
                }
                next.collect_arg_patterns(patterns);
                proof {
                    assert(start + args@ + arg_patterns_of(**next) =~= start + (args@ + arg_patterns_of(**next)));
                }
            },
            Signature::Empty => {},
        }
    }

    /// The argument patterns of this signature, from its first argument list to its last.
    pub fn arg_patterns(&self) -> (ps: Vec<&Pattern>)
        ensures
            ps@.map_values(|p: &Pattern| *p) == arg_patterns_of(*self),
    {
        let mut patterns = Vec::new();
        proof {
            assert(patterns@.map_values(|p: &Pattern| *p) =~= Seq::<Pattern>::empty());
        }
        self.collect_arg_patterns(&mut patterns);
        proof {
            assert(Seq::<Pattern>::empty() + arg_patterns_of(*self) =~= arg_patterns_of(*self));
        }
        patterns
    }
}

} // verus!
