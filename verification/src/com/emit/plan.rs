//! What building a function's code does to the state that decides whether
//! it can be built: which labels are known and at which frame depth, how
//! deep the frames are, whether any instruction was written yet, what became
//! of the marker at the top of the function, and which constants are pooled.
//! Building fails exactly where the builder would have to stop: a label that
//! is not known, a jump wired twice from the top marker, or a count that
//! does not fit its operand.

use vstd::prelude::*;
use crate::binary::value::ValueModel;
use crate::binary::opcode::Opcode;
use crate::com::low::{Expr, Stmt, Pat, Decision, Unwrapping, unwrapping_indices, Function};

verus! {

/// What became of the marker at the top of a function, the one that stands
/// for the place before its first instruction. It is the only marker that
/// can be handed out twice, so it is followed on its own.
pub enum Zero {
    /// Not handed out as the start of a jump.
    Free,
    /// Handed out as the start of a jump that is about to be wired.
    Reserved,
    /// Waiting to be wired as a break (`true`) or a skip (`false`) of a label.
    Pending(usize, bool),
    /// Wired as the start of a jump.
    Wired,
}

/// The state that decides whether code can be built.
pub struct Plan {
    /// The known labels, each with the frame depth it was made at.
    pub labels: Map<usize, nat>,
    /// The labels made since the function began.
    pub current: Set<usize>,
    pub depth: nat,
    /// Whether no instruction of the function was written yet.
    pub empty: bool,
    pub zero: Zero,
    /// The constant pool, in order.
    pub consts: Seq<ValueModel>,
    /// The number of functions of the program.
    pub funs: nat,
}

/// The plan once an instruction was written.
pub open spec fn wrote(c: Plan) -> Plan {
    Plan { empty: false, ..c }
}

/// The plan once the instruction that loads constant `v` was written: the
/// constant is added to the pool unless it is there already, and its index
/// must fit in 16 bits.
pub open spec fn with_constant(c: Plan, v: ValueModel) -> Option<Plan> {
    if c.consts.contains(v) {
        Some(wrote(c))
    } else if c.consts.len() < 0x10000 {
        Some(wrote(Plan { consts: c.consts.push(v), ..c }))
    } else {
        None
    }
}

/// The plan once a marker is taken as the start of a jump: before any
/// instruction, that is the top marker, which must not be taken yet.
pub open spec fn source(c: Plan) -> Option<Plan> {
    if c.empty {
        match c.zero {
            Zero::Free => Some(Plan { zero: Zero::Reserved, ..c }),
            _ => None,
        }
    } else {
        Some(c)
    }
}

/// The plan once a jump from a marker taken with `was_top` is wired.
pub open spec fn wire_reserved(c: Plan, was_top: bool) -> Plan {
    if was_top { Plan { zero: Zero::Wired, ..c } } else { c }
}

/// The plan once a marker is taken as a break (`brk`) or a skip of label
/// `l`. Before any instruction that is the top marker; it may wait for a
/// label made in this function only if it is not taken yet. A label made
/// before the function began is never wired in it, so what waits there
/// stays unwired.
pub open spec fn pend(c: Plan, l: usize, brk: bool) -> Option<Plan> {
    if c.empty && c.current.contains(l) {
        match c.zero {
            Zero::Free => Some(Plan { zero: Zero::Pending(l, brk), ..c }),
            _ => None,
        }
    } else {
        Some(c)
    }
}

/// The plan once label `l` is made at the current depth; the breaks and
/// skips it was waiting for are dropped.
pub open spec fn register(c: Plan, l: usize) -> Plan {
    Plan {
        labels: c.labels.insert(l, c.depth),
        current: c.current.insert(l),
        zero: match c.zero {
            Zero::Pending(k, _) => if k == l { Zero::Free } else { c.zero },
            _ => c.zero,
        },
        ..c
    }
}

/// The plan once the breaks (`brk`) or skips of label `l` are wired.
pub open spec fn wire_list(c: Plan, l: usize, brk: bool) -> Plan {
    if c.zero == Zero::Pending(l, brk) { Plan { zero: Zero::Wired, ..c } } else { c }
}

/// The plan once control leaves the frames down to that of label `l`, for
/// a break (`brk`) or a skip; the label must be known at a depth no deeper
/// than the current one.
pub open spec fn jump_out(c: Plan, l: usize, brk: bool) -> Option<Plan> {
    if c.labels.contains_key(l) && c.labels[l] <= c.depth {
        let c1 = if c.depth - c.labels[l] > 0 { wrote(c) } else { c };
        pend(c1, l, brk)
    } else {
        None
    }
}

/// Whether a pattern can be taken apart from the value at stack offset `at`:
/// every offset it reaches fits in 16 bits.
pub open spec fn decon_ok(p: Pat, at: nat) -> bool
    decreases p, 0nat,
{
    at <= 0xffff && match p {
        Pat::Bundle(items) => items@.len() <= 0xffff && decon_items_ok(items@, at),
        Pat::Variant(_, items) => at + 1 <= 0xffff && items@.len() <= 0xffff && decon_items_ok(items@, at),
        _ => true,
    }
}

/// Whether the items of a bundle can be taken apart: the first of `n`
/// items lies deepest, at offset `at + n - 1`.
pub open spec fn decon_items_ok(items: Seq<Pat>, at: nat) -> bool
    decreases items, 0nat,
{
    items.len() == 0 || (at + items.len() - 1 <= 0xffff
        && decon_ok(items[0], (at + items.len() - 1) as nat)
        && decon_items_ok(items.drop_first(), at))
}

/// The instructions that take pattern `p` apart from the value at stack
/// offset `at`: a local stays where it is; a literal or a discard is popped
/// from its offset; a bundle is spilled and its items taken apart; a variant
/// is spilled, its tag popped, its items spilled and taken apart.
pub open spec fn decon_ops(p: Pat, at: nat) -> Seq<Opcode>
    decreases p, 0nat,
{
    match p {
        Pat::Local(_) => Seq::empty(),
        Pat::Bundle(items) => seq![Opcode::spill(at as u16)] + decon_items_ops(items@, at),
        Pat::Variant(_, items) =>
            seq![Opcode::spill(at as u16), Opcode::pop_offset((at + 1) as u16), Opcode::spill(at as u16)]
                + decon_items_ops(items@, at),
        _ => seq![Opcode::pop_offset(at as u16)],
    }
}

/// The instructions that take apart the items of a bundle spilled at
/// offset `at`, first item first: of `n` items, the first lies deepest, at
/// offset `at + n - 1`.
pub open spec fn decon_items_ops(items: Seq<Pat>, at: nat) -> Seq<Opcode>
    decreases items, 0nat,
{
    if items.len() == 0 {
        Seq::empty()
    } else {
        decon_ops(items[0], (at + items.len() - 1) as nat) + decon_items_ops(items.drop_first(), at)
    }
}

/// Whether taking a pattern apart writes an instruction: all but a local do.
pub open spec fn decon_writes(p: Pat) -> bool {
    !(p is Local)
}

/// The plan after building `e`, or `None` where the builder would stop.
pub open spec fn sim_expr(e: Expr, c: Plan) -> Option<Plan>
    decreases e, 0nat,
{
    match e {
        Expr::Int { val } => with_constant(c, ValueModel::Int(val)),
        Expr::Float { bits } => with_constant(c, ValueModel::Float(bits)),
        Expr::String { val } => with_constant(c, ValueModel::String(val@)),
        Expr::Bool { val } => with_constant(c, ValueModel::Bool(val)),
        Expr::Bundle { items } =>
            if items@.len() <= 255 {
                match sim_exprs(items@, c) { Some(c1) => Some(wrote(c1)), None => None }
            } else { None },
        Expr::Access { accessed, .. } =>
            match sim_expr(*accessed, c) { Some(c1) => Some(wrote(c1)), None => None },
        Expr::Block { label, stmts, result, needs_frame } => {
            let c1 = match label { Some(l) => register(c, l.0), None => c };
            if needs_frame && c1.depth + 1 > usize::MAX {
                None
            } else {
                let c2 = if needs_frame { Plan { depth: c1.depth + 1, ..wrote(c1) } } else { c1 };
                match sim_stmts(stmts@, c2) {
                    Some(c3) => match sim_expr(*result, c3) {
                        Some(c4) => {
                            let c5 = if needs_frame { Plan { depth: c1.depth, ..wrote(c4) } } else { c4 };
                            match label { Some(l) => Some(wire_list(c5, l.0, true)), None => Some(c5) }
                        },
                        None => None,
                    },
                    None => None,
                }
            }
        },
        Expr::Variant { tag, items } =>
            if items@.len() <= 255 {
                match with_constant(c, ValueModel::Int(tag)) {
                    Some(c1) => match sim_exprs(items@, c1) { Some(c2) => Some(wrote(c2)), None => None },
                    None => None,
                }
            } else { None },
        Expr::Local { .. } => Some(wrote(c)),
        Expr::If { label, guard, then_branch, else_branch } => {
            let c1 = register(c, label.0);
            match sim_expr(*guard, c1) {
                Some(c2) => match source(c2) {
                    Some(c3) => match sim_expr(*then_branch, c3) {
                        Some(c4) => match source(c4) {
                            Some(c5) => match sim_expr(*else_branch, c5) {
                                Some(c6) => Some(wire_list(wire_reserved(wire_reserved(c6, c2.empty), c4.empty), label.0, true)),
                                None => None,
                            },
                            None => None,
                        },
                        None => None,
                    },
                    None => None,
                },
                None => None,
            }
        },
        Expr::While { label, guard, do_branch, else_branch } => {
            let c1 = register(c, label.0);
            match sim_expr(*guard, c1) {
                Some(c2) => match source(c2) {
                    Some(c3) => match sim_stmt(*do_branch, c3) {
                        Some(c4) => match source(c4) {
                            Some(c5) => match sim_expr(*else_branch, c5) {
                                Some(c6) => Some(wire_list(wire_list(
                                    wire_reserved(wire_reserved(c6, c2.empty), c4.empty), label.0, true), label.0, false)),
                                None => None,
                            },
                            None => None,
                        },
                        None => None,
                    },
                    None => None,
                },
                None => None,
            }
        },
        Expr::Loop { label, body } => {
            let c1 = register(c, label.0);
            match sim_stmt(*body, c1) {
                Some(c2) => match source(c2) {
                    Some(c3) => Some(wire_list(wire_list(wire_reserved(c3, c2.empty), label.0, true), label.0, false)),
                    None => None,
                },
                None => None,
            }
        },
        Expr::Fun { id, captured } =>
            if id.0 < c.funs && captured@.len() <= 255 { Some(wrote(c)) } else { None },
        Expr::Call { callee, args } =>
            if args@.len() <= 255 {
                match sim_exprs(args@, c) {
                    Some(c1) => match sim_expr(*callee, c1) { Some(c2) => Some(wrote(c2)), None => None },
                    None => None,
                }
            } else { None },
        Expr::Unwrap { value, unwrapping } =>
            match sim_expr(*value, c) {
                Some(c1) => {
                    let idx = unwrapping_indices(unwrapping);
                    if forall|i: int| 0 <= i < idx.len() ==> #[trigger] idx[i] <= 255 {
                        Some(if idx.len() > 0 { wrote(c1) } else { c1 })
                    } else { None }
                },
                None => None,
            },
        Expr::Match { scrutinee, decision, fallback } =>
            match sim_expr(*scrutinee, wrote(c)) {
                Some(c1) => match sim_decision(*decision, c1) {
                    Some(c2) => match sim_expr(*fallback, c2) { Some(c3) => Some(wrote(c3)), None => None },
                    None => None,
                },
                None => None,
            },
        Expr::Break { value, label } =>
            match sim_expr(*value, c) { Some(c1) => jump_out(c1, label.0, true), None => None },
        Expr::Skip { label } => jump_out(c, label.0, false),
        Expr::Add(l, r) | Expr::Sub(l, r) | Expr::Mul(l, r) | Expr::Div(l, r) | Expr::Mod(l, r)
        | Expr::BitAnd(l, r) | Expr::BitOr(l, r) | Expr::BitXor(l, r) | Expr::Pow(l, r)
        | Expr::Eq(l, r) | Expr::Ne(l, r) | Expr::Lt(l, r) | Expr::Le(l, r) | Expr::Gt(l, r) | Expr::Ge(l, r) =>
            match sim_expr(*l, c) {
                Some(c1) => match sim_expr(*r, c1) { Some(c2) => Some(wrote(c2)), None => None },
                None => None,
            },
        Expr::ShortAnd(l, r) | Expr::ShortOr(l, r) =>
            match sim_expr(*l, c) {
                Some(c1) => sim_expr(*r, wrote(c1)),
                None => None,
            },
        Expr::Exp(a) | Expr::Ln(a) | Expr::Sin(a) | Expr::Cos(a) | Expr::Tan(a) | Expr::Asin(a)
        | Expr::Acos(a) | Expr::Atan(a) | Expr::Pos(a) | Expr::Neg(a) | Expr::BitNeg(a) | Expr::Panic(a) =>
            match sim_expr(*a, c) { Some(c1) => Some(wrote(c1)), None => None },
    }
}

/// The plan after building each of `items` in order.
pub open spec fn sim_exprs(items: Seq<Expr>, c: Plan) -> Option<Plan>
    decreases items, 0nat,
{
    if items.len() == 0 {
        Some(c)
    } else {
        match sim_expr(items[0], c) { Some(c1) => sim_exprs(items.drop_first(), c1), None => None }
    }
}

/// The plan after building a statement.
pub open spec fn sim_stmt(s: Stmt, c: Plan) -> Option<Plan>
    decreases s, 0nat,
{
    match s {
        Stmt::Nothing => Some(c),
        Stmt::Expr { expr } => match sim_expr(*expr, c) { Some(c1) => Some(wrote(c1)), None => None },
        Stmt::Let { bindings } => sim_bindings(bindings@, c),
        Stmt::Block { stmts, needs_frame } => {
            let c1 = if needs_frame { wrote(c) } else { c };
            match sim_stmts(stmts@, c1) {
                Some(c2) => Some(if needs_frame { wrote(c2) } else { c2 }),
                None => None,
            }
        },
    }
}

/// The plan after building each of `stmts` in order.
pub open spec fn sim_stmts(stmts: Seq<Stmt>, c: Plan) -> Option<Plan>
    decreases stmts, 0nat,
{
    if stmts.len() == 0 {
        Some(c)
    } else {
        match sim_stmt(stmts[0], c) { Some(c1) => sim_stmts(stmts.drop_first(), c1), None => None }
    }
}

/// The plan after building each binding: its value, then taking the value apart.
pub open spec fn sim_bindings(bindings: Seq<(Pat, Expr)>, c: Plan) -> Option<Plan>
    decreases bindings, 0nat,
{
    if bindings.len() == 0 {
        Some(c)
    } else {
        match sim_expr(bindings[0].1, c) {
            Some(c1) => if decon_ok(bindings[0].0, 0) {
                sim_bindings(bindings.drop_first(), if decon_writes(bindings[0].0) { wrote(c1) } else { c1 })
            } else { None },
            None => None,
        }
    }
}

/// The plan after testing a local against a pattern's head: the constant it
/// is compared with, if any, is pooled.
pub open spec fn sim_test(p: Pat, c: Plan) -> Option<Plan> {
    match p {
        Pat::Int(v) => with_constant(c, ValueModel::Int(v)),
        Pat::Float(v) => with_constant(c, ValueModel::Float(v)),
        Pat::String(v) => with_constant(c, ValueModel::String(v@)),
        Pat::Bool(v) => with_constant(c, ValueModel::Bool(v)),
        Pat::Variant(tag, _) => with_constant(wrote(c), ValueModel::Int(tag as i64)),
        _ => Some(wrote(c)),
    }
}

/// Whether a matched pattern is then taken apart: locals, bundles and variants are.
pub open spec fn test_deconstructs(p: Pat) -> bool {
    p is Local || p is Bundle || p is Variant
}

/// The plan after building a decision tree.
pub open spec fn sim_decision(d: Decision, c: Plan) -> Option<Plan>
    decreases d, 0nat,
{
    match d {
        Decision::Failure => source(c),
        Decision::Success { expr } => match sim_expr(*expr, c) { Some(c1) => source(c1), None => None },
        Decision::Test { pat, success, failure, .. } =>
            match sim_test(*pat, wrote(c)) {
                Some(c2) => match source(c2) {
                    Some(c3) => match sim_decision(*failure, c3) {
                        Some(c4) => {
                            if test_deconstructs(*pat) && !decon_ok(*pat, 0) {
                                None
                            } else {
                                let c5 = if test_deconstructs(*pat) {
                                    if decon_writes(*pat) { wrote(wrote(c4)) } else { wrote(c4) }
                                } else { c4 };
                                match sim_decision(*success, c5) {
                                    Some(c6) => Some(wire_reserved(c6, c2.empty)),
                                    None => None,
                                }
                            }
                        },
                        None => None,
                    },
                    None => None,
                },
                None => None,
            },
    }
}

/// What building keeps of a plan `c` in the plan `d` it leads to: the labels
/// made in the function stay made, the frame depth and the number of
/// functions stay, code once written stays written, a reserved top marker
/// stays reserved, and constants are only added.
pub open spec fn keeps(c: Plan, d: Plan) -> bool {
    &&& c.current.subset_of(d.current)
    &&& d.depth == c.depth
    &&& d.funs == c.funs
    &&& (!c.empty ==> !d.empty)
    &&& (c.zero == Zero::Reserved ==> d.zero == Zero::Reserved)
    &&& d.consts.len() >= c.consts.len()
    &&& d.consts.subrange(0, c.consts.len() as int) == c.consts
}

pub proof fn lemma_keeps_refl(c: Plan)
    ensures
        keeps(c, c),
{
    assert(c.consts.subrange(0, c.consts.len() as int) =~= c.consts);
}

pub proof fn lemma_keeps_trans(a: Plan, b: Plan, c: Plan)
    requires
        keeps(a, b),
        keeps(b, c),
    ensures
        keeps(a, c),
{
    assert(c.consts.subrange(0, a.consts.len() as int) =~= b.consts.subrange(0, a.consts.len() as int));
}

proof fn lemma_with_constant_keeps(c: Plan, v: ValueModel)
    ensures
        with_constant(c, v) matches Some(d) ==> keeps(c, d),
{
    lemma_keeps_refl(c);
    if !c.consts.contains(v) && c.consts.len() < 0x10000 {
        assert(c.consts.push(v).subrange(0, c.consts.len() as int) =~= c.consts);
    }
}

/// Building an expression keeps its plan.
pub proof fn lemma_sim_expr_keeps(e: Expr, c: Plan)
    ensures
        sim_expr(e, c) matches Some(d) ==> keeps(c, d),
    decreases e, 0nat,
{
    lemma_keeps_refl(c);
    match e {
        Expr::Int { val } => lemma_with_constant_keeps(c, ValueModel::Int(val)),
        Expr::Float { bits } => lemma_with_constant_keeps(c, ValueModel::Float(bits)),
        Expr::String { val } => lemma_with_constant_keeps(c, ValueModel::String(val@)),
        Expr::Bool { val } => lemma_with_constant_keeps(c, ValueModel::Bool(val)),
        Expr::Bundle { items } => {
            lemma_sim_exprs_keeps(items@, c);
        },
        Expr::Access { accessed, .. } => {
            lemma_sim_expr_keeps(*accessed, c);
        },
        Expr::Block { label, stmts, result, needs_frame } => {
            let c1 = match label { Some(l) => register(c, l.0), None => c };
            lemma_keeps_refl(c1);
            let c2 = if needs_frame { Plan { depth: c1.depth + 1, ..wrote(c1) } } else { c1 };
            lemma_sim_stmts_keeps(stmts@, c2);
            if let Some(c3) = sim_stmts(stmts@, c2) {
                lemma_sim_expr_keeps(*result, c3);
                if let Some(c4) = sim_expr(*result, c3) {
                    lemma_keeps_trans(c2, c3, c4);
                    assert(c4.consts.subrange(0, c.consts.len() as int) =~= c.consts) by {
                        assert(c2.consts == c.consts);
                    }
                }
            }
        },
        Expr::Variant { tag, items } => {
            lemma_with_constant_keeps(c, ValueModel::Int(tag));
            if let Some(c1) = with_constant(c, ValueModel::Int(tag)) {
                lemma_sim_exprs_keeps(items@, c1);
                if let Some(c2) = sim_exprs(items@, c1) {
                    lemma_keeps_trans(c, c1, c2);
                }
            }
        },
        Expr::Local { .. } => {},
        Expr::If { label, guard, then_branch, else_branch } => {
            let c1 = register(c, label.0);
            lemma_sim_expr_keeps(*guard, c1);
            if let Some(c2) = sim_expr(*guard, c1) {
                if let Some(c3) = source(c2) {
                    lemma_sim_expr_keeps(*then_branch, c3);
                    if let Some(c4) = sim_expr(*then_branch, c3) {
                        if let Some(c5) = source(c4) {
                            lemma_sim_expr_keeps(*else_branch, c5);
                            if let Some(c6) = sim_expr(*else_branch, c5) {
                                assert(c6.consts.subrange(0, c.consts.len() as int) =~= c.consts) by {
                                    assert(c6.consts.subrange(0, c5.consts.len() as int) == c5.consts);
                                    assert(c4.consts.subrange(0, c3.consts.len() as int) == c3.consts);
                                    assert(c2.consts.subrange(0, c1.consts.len() as int) == c1.consts);
                                    assert(c6.consts.subrange(0, c.consts.len() as int) =~= c2.consts.subrange(0, c.consts.len() as int));
                                }
                            }
                        }
                    }
                }
            }
        },
        Expr::While { label, guard, do_branch, else_branch } => {
            let c1 = register(c, label.0);
            lemma_sim_expr_keeps(*guard, c1);
            if let Some(c2) = sim_expr(*guard, c1) {
                if let Some(c3) = source(c2) {
                    lemma_sim_stmt_keeps(*do_branch, c3);
                    if let Some(c4) = sim_stmt(*do_branch, c3) {
                        if let Some(c5) = source(c4) {
                            lemma_sim_expr_keeps(*else_branch, c5);
                            if let Some(c6) = sim_expr(*else_branch, c5) {
                                assert(c6.consts.subrange(0, c.consts.len() as int) =~= c.consts) by {
                                    assert(c6.consts.subrange(0, c5.consts.len() as int) == c5.consts);
                                    assert(c4.consts.subrange(0, c3.consts.len() as int) == c3.consts);
                                    assert(c2.consts.subrange(0, c1.consts.len() as int) == c1.consts);
                                    assert(c6.consts.subrange(0, c.consts.len() as int) =~= c2.consts.subrange(0, c.consts.len() as int));
                                }
                            }
                        }
                    }
                }
            }
        },
        Expr::Loop { label, body } => {
            let c1 = register(c, label.0);
            lemma_sim_stmt_keeps(*body, c1);
        },
        Expr::Fun { .. } => {},
        Expr::Call { callee, args } => {
            lemma_sim_exprs_keeps(args@, c);
            if let Some(c1) = sim_exprs(args@, c) {
                lemma_sim_expr_keeps(*callee, c1);
                if let Some(c2) = sim_expr(*callee, c1) {
                    lemma_keeps_trans(c, c1, c2);
                }
            }
        },
        Expr::Unwrap { value, .. } => {
            lemma_sim_expr_keeps(*value, c);
        },
        Expr::Match { scrutinee, decision, fallback } => {
            lemma_keeps_refl(wrote(c));
            lemma_sim_expr_keeps(*scrutinee, wrote(c));
            if let Some(c1) = sim_expr(*scrutinee, wrote(c)) {
                lemma_sim_decision_keeps(*decision, c1);
                if let Some(c2) = sim_decision(*decision, c1) {
                    lemma_sim_expr_keeps(*fallback, c2);
                    if let Some(c3) = sim_expr(*fallback, c2) {
                        lemma_keeps_trans(wrote(c), c1, c2);
                        lemma_keeps_trans(wrote(c), c2, c3);
                        assert(c3.consts.subrange(0, c.consts.len() as int) =~= c.consts) by {
                            assert(wrote(c).consts == c.consts);
                        }
                    }
                }
            }
        },
        Expr::Break { value, .. } => {
            lemma_sim_expr_keeps(*value, c);
        },
        Expr::Skip { .. } => {},
        Expr::Add(l, r) | Expr::Sub(l, r) | Expr::Mul(l, r) | Expr::Div(l, r) | Expr::Mod(l, r)
        | Expr::BitAnd(l, r) | Expr::BitOr(l, r) | Expr::BitXor(l, r) | Expr::Pow(l, r)
        | Expr::Eq(l, r) | Expr::Ne(l, r) | Expr::Lt(l, r) | Expr::Le(l, r) | Expr::Gt(l, r) | Expr::Ge(l, r) => {
            lemma_sim_expr_keeps(*l, c);
            if let Some(c1) = sim_expr(*l, c) {
                lemma_sim_expr_keeps(*r, c1);
                if let Some(c2) = sim_expr(*r, c1) {
                    lemma_keeps_trans(c, c1, c2);
                }
            }
        },
        Expr::ShortAnd(l, r) | Expr::ShortOr(l, r) => {
            lemma_sim_expr_keeps(*l, c);
            if let Some(c1) = sim_expr(*l, c) {
                lemma_sim_expr_keeps(*r, wrote(c1));
                if let Some(c2) = sim_expr(*r, wrote(c1)) {
                    lemma_keeps_refl(wrote(c1));
                    lemma_keeps_trans(c, c1, wrote(c1));
                    lemma_keeps_trans(c, wrote(c1), c2);
                }
            }
        },
        Expr::Exp(a) | Expr::Ln(a) | Expr::Sin(a) | Expr::Cos(a) | Expr::Tan(a) | Expr::Asin(a)
        | Expr::Acos(a) | Expr::Atan(a) | Expr::Pos(a) | Expr::Neg(a) | Expr::BitNeg(a) | Expr::Panic(a) => {
            lemma_sim_expr_keeps(*a, c);
        },
    }
}

/// Building a list of expressions keeps its plan.
pub proof fn lemma_sim_exprs_keeps(items: Seq<Expr>, c: Plan)
    ensures
        sim_exprs(items, c) matches Some(d) ==> keeps(c, d),
    decreases items, 0nat,
{
    lemma_keeps_refl(c);
    if items.len() > 0 {
        lemma_sim_expr_keeps(items[0], c);
        if let Some(c1) = sim_expr(items[0], c) {
            lemma_sim_exprs_keeps(items.drop_first(), c1);
            if let Some(c2) = sim_exprs(items.drop_first(), c1) {
                lemma_keeps_trans(c, c1, c2);
            }
        }
    }
}

/// Building a statement keeps its plan.
pub proof fn lemma_sim_stmt_keeps(s: Stmt, c: Plan)
    ensures
        sim_stmt(s, c) matches Some(d) ==> keeps(c, d),
    decreases s, 0nat,
{
    lemma_keeps_refl(c);
    match s {
        Stmt::Nothing => {},
        Stmt::Expr { expr } => {
            lemma_sim_expr_keeps(*expr, c);
        },
        Stmt::Let { bindings } => {
            lemma_sim_bindings_keeps(bindings@, c);
        },
        Stmt::Block { stmts, needs_frame } => {
            let c1 = if needs_frame { wrote(c) } else { c };
            lemma_sim_stmts_keeps(stmts@, c1);
            if let Some(c2) = sim_stmts(stmts@, c1) {
                assert(c2.consts.subrange(0, c.consts.len() as int) =~= c.consts) by {
                    assert(c1.consts == c.consts);
                }
            }
        },
    }
}

/// Building a list of statements keeps its plan.
pub proof fn lemma_sim_stmts_keeps(stmts: Seq<Stmt>, c: Plan)
    ensures
        sim_stmts(stmts, c) matches Some(d) ==> keeps(c, d),
    decreases stmts, 0nat,
{
    lemma_keeps_refl(c);
    if stmts.len() > 0 {
        lemma_sim_stmt_keeps(stmts[0], c);
        if let Some(c1) = sim_stmt(stmts[0], c) {
            lemma_sim_stmts_keeps(stmts.drop_first(), c1);
            if let Some(c2) = sim_stmts(stmts.drop_first(), c1) {
                lemma_keeps_trans(c, c1, c2);
            }
        }
    }
}

/// Building bindings keeps the plan.
pub proof fn lemma_sim_bindings_keeps(bindings: Seq<(Pat, Expr)>, c: Plan)
    ensures
        sim_bindings(bindings, c) matches Some(d) ==> keeps(c, d),
    decreases bindings, 0nat,
{
    lemma_keeps_refl(c);
    if bindings.len() > 0 {
        lemma_sim_expr_keeps(bindings[0].1, c);
        if let Some(c1) = sim_expr(bindings[0].1, c) {
            let c2 = if decon_writes(bindings[0].0) { wrote(c1) } else { c1 };
            lemma_keeps_refl(c1);
            lemma_sim_bindings_keeps(bindings.drop_first(), c2);
            if let Some(c3) = sim_bindings(bindings.drop_first(), c2) {
                lemma_keeps_trans(c, c1, c2);
                lemma_keeps_trans(c, c2, c3);
            }
        }
    }
}

/// Building a decision tree keeps its plan.
pub proof fn lemma_sim_decision_keeps(d: Decision, c: Plan)
    ensures
        sim_decision(d, c) matches Some(e) ==> keeps(c, e),
    decreases d, 0nat,
{
    lemma_keeps_refl(c);
    match d {
        Decision::Failure => {},
        Decision::Success { expr } => {
            lemma_sim_expr_keeps(*expr, c);
        },
        Decision::Test { pat, success, failure, .. } => {
            let w = wrote(c);
            lemma_keeps_refl(w);
            match *pat {
                Pat::Int(v) => lemma_with_constant_keeps(w, ValueModel::Int(v)),
                Pat::Float(v) => lemma_with_constant_keeps(w, ValueModel::Float(v)),
                Pat::String(v) => lemma_with_constant_keeps(w, ValueModel::String(v@)),
                Pat::Bool(v) => lemma_with_constant_keeps(w, ValueModel::Bool(v)),
                Pat::Variant(tag, _) => lemma_with_constant_keeps(wrote(w), ValueModel::Int(tag as i64)),
                _ => {},
            }
            if let Some(c2) = sim_test(*pat, w) {
                lemma_keeps_trans(c, w, c2);
                if let Some(c3) = source(c2) {
                    lemma_sim_decision_keeps(*failure, c3);
                    if let Some(c4) = sim_decision(*failure, c3) {
                        lemma_keeps_trans(c, c3, c4);
                        let c5 = if test_deconstructs(*pat) {
                            if decon_writes(*pat) { wrote(wrote(c4)) } else { wrote(c4) }
                        } else { c4 };
                        lemma_keeps_refl(c4);
                        lemma_sim_decision_keeps(*success, c5);
                        if let Some(c6) = sim_decision(*success, c5) {
                            lemma_keeps_trans(c, c4, c5);
                            lemma_keeps_trans(c, c5, c6);
                        }
                    }
                }
            }
        },
    }
}

/// The plan at the start of a function: the labels made before stay
/// known, but none is made in it yet, no instruction is written and the top
/// marker is free.
pub open spec fn start_function(c: Plan) -> Plan {
    Plan { current: Set::empty(), empty: true, zero: Zero::Free, ..c }
}

/// The stack offset at which argument `i` of `n` lies, below the
/// `captured` captured locals counted in 16 bits.
pub open spec fn arg_offset(n: nat, i: int, captured: usize) -> int {
    (n - 1 - i) + (captured as u16) as int
}

/// Whether the arguments of a function can be taken apart: there are at
/// most 65535, and each offset fits in 16 bits.
pub open spec fn args_ok(args: Seq<Pat>, captured: usize) -> bool {
    &&& args.len() <= 0xffff
    &&& forall|i: int| 0 <= i < args.len() ==> {
        let off = arg_offset(args.len(), i, captured);
        &&& off <= 0xffff
        &&& decon_ok(#[trigger] args[i], off as nat)
    }
}

/// Whether taking the arguments apart writes an instruction.
pub open spec fn args_write(args: Seq<Pat>) -> bool {
    exists|i: int| 0 <= i < args.len() && decon_writes(#[trigger] args[i])
}

/// The plan after building a function, or `None` where the builder would stop.
pub open spec fn sim_function(f: Function, c: Plan) -> Option<Plan> {
    if f.id.0 < c.funs && args_ok(f.args@, f.captured_count) {
        let c0 = start_function(c);
        let c1 = if args_write(f.args@) { wrote(c0) } else { c0 };
        match sim_expr(f.expr, c1) {
            Some(c2) => Some(wrote(c2)),
            None => None,
        }
    } else {
        None
    }
}

/// The plan after building each function of `fs` in order.
pub open spec fn sim_functions(fs: Seq<Function>, c: Plan) -> Option<Plan>
    decreases fs.len(),
{
    if fs.len() == 0 {
        Some(c)
    } else {
        match sim_function(fs[0], c) { Some(c1) => sim_functions(fs.drop_first(), c1), None => None }
    }
}

/// The plan before a program of `n` functions is built.
pub open spec fn start_program(n: nat) -> Plan {
    Plan {
        labels: Map::empty(),
        current: Set::empty(),
        depth: 0,
        empty: true,
        zero: Zero::Free,
        consts: Seq::empty(),
        funs: n,
    }
}

/// Whether a program can be turned into bytecode: each function builds,
/// its constants fit a pool of at most 65535, and there are at most 65535
/// functions to list.
pub open spec fn emittable(functions: Seq<Function>) -> bool {
    &&& functions.len() <= 0xffff
    &&& sim_functions(functions, start_program(functions.len())) matches Some(c) && c.consts.len() <= 0xffff
}

/// Building a function keeps the frame depth, the number of functions and
/// the pooled constants.
pub proof fn lemma_sim_function_keeps(f: Function, c: Plan)
    ensures
        sim_function(f, c) matches Some(d) ==> {
            &&& d.depth == c.depth
            &&& d.funs == c.funs
            &&& d.consts.len() >= c.consts.len()
            &&& d.consts.subrange(0, c.consts.len() as int) == c.consts
        },
{
    if f.id.0 < c.funs && args_ok(f.args@, f.captured_count) {
        let c0 = start_function(c);
        let c1 = if args_write(f.args@) { wrote(c0) } else { c0 };
        lemma_sim_expr_keeps(f.expr, c1);
    }
}

/// Building functions keeps the number of functions, and only adds constants.
pub proof fn lemma_sim_functions_keeps(fs: Seq<Function>, c: Plan)
    ensures
        sim_functions(fs, c) matches Some(d) ==> {
            &&& d.depth == c.depth
            &&& d.funs == c.funs
            &&& d.consts.len() >= c.consts.len()
        },
    decreases fs.len(),
{
    if fs.len() > 0 {
        lemma_sim_function_keeps(fs[0], c);
        if let Some(c1) = sim_function(fs[0], c) {
            lemma_sim_functions_keeps(fs.drop_first(), c1);
        }
    }
}

} // verus!
