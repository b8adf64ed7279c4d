//! The lowered program: functions over numbered locals, ready to be
//! turned into bytecode. A float literal is held as its IEEE-754 bits.

use vstd::prelude::*;
use std::collections::HashMap;
use crate::com::ir;

verus! {

/// The index of a function of the lowered program.
#[derive(Debug, Clone, Copy, PartialEq, Eq, Structural, Hash)]
pub struct FunID(pub usize);

/// A lowered expression.
pub enum Expr {
    Int {
        val: i64,
    },
    Float {
        bits: u64,
    },
    String {
        val: String,
    },
    Bool {
        val: bool,
    },
    Bundle {
        items: Vec<Expr>,
    },
    Access {
        accessed: Box<Expr>,
        index: u8,
    },
    Block {
        label: Option<ir::LabelID>,
        stmts: Vec<Stmt>,
        result: Box<Expr>,
        needs_frame: bool,
    },
    Variant {
        tag: i64,
        items: Vec<Expr>,
    },
    Local {
        local: u8,
    },
    If {
        label: ir::LabelID,
        guard: Box<Expr>,
        then_branch: Box<Expr>,
        else_branch: Box<Expr>,
    },
    While {
        label: ir::LabelID,
        guard: Box<Expr>,
        do_branch: Box<Stmt>,
        else_branch: Box<Expr>,
    },
    Loop {
        label: ir::LabelID,
        body: Box<Stmt>,
    },
    Fun {
        id: FunID,
        captured: Vec<u8>,
    },
    Call {
        callee: Box<Expr>,
        args: Vec<Expr>,
    },
    Unwrap {
        value: Box<Expr>,
        unwrapping: Unwrapping,
    },
    Match {
        scrutinee: Box<Expr>,
        decision: Box<Decision>,
        fallback: Box<Expr>,
    },
    Break {
        value: Box<Expr>,
        label: ir::LabelID,
    },
    Skip {
        label: ir::LabelID,
    },

    Add(Box<Expr>, Box<Expr>),
    Sub(Box<Expr>, Box<Expr>),
    Mul(Box<Expr>, Box<Expr>),
    Div(Box<Expr>, Box<Expr>),
    Mod(Box<Expr>, Box<Expr>),
    BitAnd(Box<Expr>, Box<Expr>),
    BitOr(Box<Expr>, Box<Expr>),
    BitXor(Box<Expr>, Box<Expr>),

    Pow(Box<Expr>, Box<Expr>),
    Exp(Box<Expr>),
    Ln(Box<Expr>),
    Sin(Box<Expr>),
    Cos(Box<Expr>),
    Tan(Box<Expr>),
    Asin(Box<Expr>),
    Acos(Box<Expr>),
    Atan(Box<Expr>),

    ShortAnd(Box<Expr>, Box<Expr>),
    ShortOr(Box<Expr>, Box<Expr>),

    Pos(Box<Expr>),
    Neg(Box<Expr>),
    BitNeg(Box<Expr>),

    Eq(Box<Expr>, Box<Expr>),
    Ne(Box<Expr>, Box<Expr>),
    Lt(Box<Expr>, Box<Expr>),
    Le(Box<Expr>, Box<Expr>),
    Gt(Box<Expr>, Box<Expr>),
    Ge(Box<Expr>, Box<Expr>),

    Panic(Box<Expr>),
}

/// A decision tree that tests locals against patterns.
pub enum Decision {
    Failure,
    Success {
        expr: Box<Expr>,
    },
    Test {
        local: u8,
        pat: Box<Pat>,
        success: Box<Decision>,
        failure: Box<Decision>,
    },
}

/// A lowered statement.
pub enum Stmt {
    Nothing,
    Expr {
        expr: Box<Expr>,
    },
    Let {
        bindings: Vec<(Pat, Expr)>,
    },
    Block {
        stmts: Vec<Stmt>,
        needs_frame: bool,
    },
}

/// A pattern that a value is tested against or taken apart by.
pub enum Pat {
    Discard,
    Int(i64),
    Float(u64),
    String(String),
    Bool(bool),
    Local(u8),
    Bundle(Vec<Pat>),
    Variant(usize, Vec<Pat>),
}

/// A lowered function: its name, index, argument patterns, body, and the
/// number of locals it captures.
pub struct Function {
    pub name: String,
    pub id: FunID,
    pub args: Vec<Pat>,
    pub expr: Expr,
    pub captured_count: usize,
}

/// A lowered program: its functions.
pub struct Program {
    pub functions: Vec<Function>,
}


/// The variables that a function captures, and the functions that the
/// captured variables stand for.
#[derive(Default, Clone)]
pub struct CaptureInfo {
    pub variables: Vec<ir::VariableID>,
    pub functions: HashMap<ir::VariableID, FunID>,
}

/// How to reach a value nested in bundles: the index to take at each level.
#[derive(Debug)]
pub enum Unwrapping {
    Done,
    Bundle { index: usize, next: Box<Unwrapping> },
}

/// The indices of an unwrapping, from the outermost bundle inwards.
pub open spec fn unwrapping_indices(u: Unwrapping) -> Seq<usize>
    decreases u,
{
    match u {
        Unwrapping::Done => Seq::empty(),
        Unwrapping::Bundle { index, next } => seq![index] + unwrapping_indices(*next),
    }
}

impl Clone for Unwrapping {
    fn clone(&self) -> (res: Self)
        ensures
            res == *self,
        decreases self,
    {
        match self {
            Unwrapping::Done => Unwrapping::Done,
            Unwrapping::Bundle { index, next } => Unwrapping::Bundle { index: *index, next: Box::new((**next).clone()) },
        }
    }
}

impl Unwrapping {
    /// This unwrapping, taken from within the `i`-th item of a bundle.
    pub fn index(self, i: usize) -> (u: Self)
        ensures
            unwrapping_indices(u) == seq![i] + unwrapping_indices(self),
    {
        Self::Bundle { index: i, next: Box::new(self) }
    }
}

/// The bindings that taking `rhs` apart by `lhs` leaves to make: nothing
/// for a literal pattern against a literal of its kind; for a bundle or a
/// variant against one of its kind, the bindings of each item against the
/// item at its place, as far as both have items; else `lhs` bound to `rhs`.
pub open spec fn simplified(lhs: Pat, rhs: Expr) -> Seq<(Pat, Expr)>
    decreases lhs, 1nat,
{
    match (lhs, rhs) {
        (Pat::Int(_), Expr::Int { .. }) => Seq::empty(),
        (Pat::Float(_), Expr::Float { .. }) => Seq::empty(),
        (Pat::String(_), Expr::String { .. }) => Seq::empty(),
        (Pat::Bool(_), Expr::Bool { .. }) => Seq::empty(),
        (Pat::Bundle(l), Expr::Bundle { items: r }) => simplified_items(l@, r@),
        (Pat::Variant(_, l), Expr::Variant { items: r, .. }) => simplified_items(l@, r@),
        (pat, expr) => seq![(pat, expr)],
    }
}

/// The bindings of each pattern of `l` against the expression at its place
/// in `r`, as far as both go.
pub open spec fn simplified_items(l: Seq<Pat>, r: Seq<Expr>) -> Seq<(Pat, Expr)>
    decreases l, 0nat,
{
    if l.len() == 0 || r.len() == 0 {
        Seq::empty()
    } else {
        simplified(l[0], r[0]) + simplified_items(l.drop_first(), r.drop_first())
    }
}

/// Takes `rhs` apart by `lhs` as far as both are known, adding to
/// `bindings` what is left to bind.
pub fn simplify_deconstruct(lhs: Pat, rhs: Expr, bindings: &mut Vec<(Pat, Expr)>)
    ensures
        final(bindings)@ == old(bindings)@ + simplified(lhs, rhs),
    decreases lhs, 1nat,
{
    let ghost whole = lhs;
    let ghost whole_rhs = rhs;
    match (lhs, rhs) {
        (Pat::Int(_), Expr::Int { .. }) => {},
        (Pat::Float(_), Expr::Float { .. }) => {},
        (Pat::String(_), Expr::String { .. }) => {},
        (Pat::Bool(_), Expr::Bool { .. }) => {},
        (Pat::Bundle(l), Expr::Bundle { items: r }) => {
            proof {
                assert(simplified(whole, whole_rhs) == simplified_items(l@, r@));
            }
            simplify_items(l, r, bindings, Ghost(whole));
        },
        (Pat::Variant(_, l), Expr::Variant { items: r, .. }) => {
            proof {
                assert(simplified(whole, whole_rhs) == simplified_items(l@, r@));
            }
            simplify_items(l, r, bindings, Ghost(whole));
        },
        (pat, expr) => {
            bindings.push((pat, expr));
        },
    }
}

/// `simplify_deconstruct` on each pattern of `l` and the expression at its
/// place in `r`, in order, as far as both go; `l` holds items of `whole`.
fn simplify_items(l: Vec<Pat>, r: Vec<Expr>, bindings: &mut Vec<(Pat, Expr)>, Ghost(whole): Ghost<Pat>)
    requires
        (whole matches Pat::Bundle(items) && items@ == l@) || (whole matches Pat::Variant(_, items) && items@ == l@),
    ensures
        final(bindings)@ == old(bindings)@ + simplified_items(l@, r@),
    decreases whole, 0nat,
{
    let ghost all_l = l@;
    let ghost all_r = r@;
    let mut l = l;
    let mut r = r;
    let ghost mut k: int = 0;
    while l.len() > 0 && r.len() > 0
        invariant
            0 <= k <= all_l.len(),
            k <= all_r.len(),
            l@ == all_l.subrange(k, all_l.len() as int),
            r@ == all_r.subrange(k, all_r.len() as int),
            (whole matches Pat::Bundle(items) && items@ == all_l) || (whole matches Pat::Variant(_, items) && items@ == all_l),
            bindings@ + simplified_items(l@, r@) == old(bindings)@ + simplified_items(all_l, all_r),
        decreases l@.len(),
    {
        let a = l.remove(0);
        let b = r.remove(0);
        proof {
            assert(a == all_l[k]);
            match whole {
                Pat::Bundle(items) => {
                    assert(decreases_to!(whole => items));
                    assert(decreases_to!(items => items@));
                    assert(decreases_to!(items@ => items@[k]));
                },
                Pat::Variant(_, items) => {
                    assert(decreases_to!(whole => items));
                    assert(decreases_to!(items => items@));
                    assert(decreases_to!(items@ => items@[k]));
                },
                _ => {},
            }
        }
        let ghost before = bindings@;
        let ghost rest_l = all_l.subrange(k + 1, all_l.len() as int);
        let ghost rest_r = all_r.subrange(k + 1, all_r.len() as int);
        proof {
            assert(l@ =~= rest_l);
            assert(r@ =~= rest_r);
            let cur_l = all_l.subrange(k, all_l.len() as int);
            let cur_r = all_r.subrange(k, all_r.len() as int);
            assert(cur_l.drop_first() =~= rest_l);
            assert(cur_r.drop_first() =~= rest_r);
            assert(simplified_items(cur_l, cur_r) == simplified(a, b) + simplified_items(rest_l, rest_r));
        }
        simplify_deconstruct(a, b, bindings);
        proof {
            assert(before + (simplified(a, b) + simplified_items(rest_l, rest_r))
                =~= (before + simplified(a, b)) + simplified_items(rest_l, rest_r));
            k = k + 1;
        }
    }
    proof {
        assert(simplified_items(l@, r@) =~= Seq::<(Pat, Expr)>::empty());
        assert(bindings@ + Seq::<(Pat, Expr)>::empty() =~= bindings@);
    }
}

} // verus!
