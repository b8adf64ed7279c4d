//! Turns a lowered program into bytecode: each function's instructions are
//! collected with markers between them, jumps are wired from marker to
//! marker, and the code is then written out with every jump's target filled
//! in once its position is known.

use vstd::prelude::*;
use std::collections::HashMap;
use crate::binary::opcode::{self, Opcode, opcode_tag, opcode_operand};
use crate::binary::listing::{decode_file, listing_of, lemma_file_roundtrip, is_boundary, targets_ok, op_target,
    lemma_boundary_ends, lemma_boundary_push, lemma_targets_push, lemma_targets_patch, encode_ops, op_offset, lemma_encode_ops_len_eq, slot_of, patchable, with_target, lemma_patch_ops, lemma_op_offset_push, lemma_encode_opcode_len};
use crate::binary::code::{write_opcode, encode_opcode};
use crate::binary::le::{le_bytes, le_u32_bytes, lemma_le_bytes_len, append_bytes};
use crate::binary::value::{Value, ValueModel, models, lemma_models_len, lemma_models_index};
use crate::binary::data::{writable, all_writable, lemma_all_writable_each};
use crate::binary::error::{Error, Result};
use crate::binary::sections::{magic_bytes, write_magic, encode_constant_pool, write_constant_pool, encode_function_table, write_function_table, lists_table, table_text, table_of,
    encode_function_infos, lemma_small_table_names_fit, lemma_table_of_listing};
use crate::com::emit::plan::{start_function, arg_offset, args_ok, args_write, sim_function, sim_functions, start_program, emittable, jump_out, decon_ok, decon_items_ok, decon_ops, decon_items_ops, decon_writes, sim_expr, sim_exprs, sim_stmt, sim_stmts, sim_bindings, sim_decision, sim_test, test_deconstructs, keeps, lemma_sim_expr_keeps, lemma_sim_exprs_keeps, lemma_sim_stmt_keeps, lemma_sim_stmts_keeps, lemma_sim_decision_keeps};
use crate::com::low::{FunID, Pat, Unwrapping, unwrapping_indices, Expr, Stmt, Decision, Function, Program};
use crate::com::emit::plan::{Plan, Zero, wrote, with_constant, source, wire_reserved, pend, register, wire_list};

verus! {

/// A place between two instructions of the function being built.
#[derive(Clone, Copy, PartialEq, Eq, Structural)]
pub struct Marker(usize);

/// The jumps that end at a marker, and the one that starts there, if any.
struct MarkerInfo {
    incoming: Vec<Marker>,
    outgoing: Option<(Marker, JumpMode)>,
}

/// When a jump is taken.
#[derive(Debug, Clone, Copy, PartialEq, Eq, Structural)]
enum JumpMode {
    Always,
    IfTrue,
    IfFalse,
    Eq,
}

/// A position that is known, or the places that wait to be filled with it.
enum Placeholder {
    Unpatched(Vec<u32>),
    Patched(u32),
}

/// A label of the function being built: the frame depth it was made at,
/// and the markers of the breaks and skips that wait to be wired to it.
struct Label {
    depth: usize,
    breaks: Vec<Marker>,
    skips: Vec<Marker>,
}

/// An instruction to write: nothing, an opcode, or the loading of a function
/// whose position may not be known yet.
pub enum PseudoOp {
    Noop,
    Op(Opcode),
    LoadFun(FunID),
}

/// `ops` as instructions to write, none of them at a marker.
pub open spec fn plain_ops(ops: Seq<Opcode>) -> Seq<(PseudoOp, Option<Marker>)> {
    ops.map_values(|op: Opcode| (PseudoOp::Op(op), None))
}

/// `op` as an instruction to write, at no marker.
pub open spec fn op_at(op: Opcode) -> (PseudoOp, Option<Marker>) {
    (PseudoOp::Op(op), None)
}

/// Where constant `v` stands in the pool `consts` once it is loaded: its
/// first place there, or the end of the pool, where it is added.
pub open spec fn const_index(consts: Seq<ValueModel>, v: ValueModel) -> nat
    decreases consts.len(),
{
    if consts.len() == 0 {
        0
    } else if consts[0] == v {
        0
    } else {
        1 + const_index(consts.drop_first(), v)
    }
}

/// The instruction that loads constant `v` from plan `c`.
pub open spec fn load_const_op(c: Plan, v: ValueModel) -> (PseudoOp, Option<Marker>) {
    op_at(Opcode::load_const(const_index(c.consts, v) as u16))
}

/// The instruction that applies the operator of a binary or unary
/// operation `e`.
pub open spec fn operator_op(e: Expr) -> Opcode {
    match e {
        Expr::Add(..) => Opcode::add,
        Expr::Sub(..) => Opcode::sub,
        Expr::Mul(..) => Opcode::mul,
        Expr::Div(..) => Opcode::div,
        Expr::Mod(..) => Opcode::modulo,
        Expr::BitAnd(..) => Opcode::and,
        Expr::BitOr(..) => Opcode::or,
        Expr::BitXor(..) => Opcode::xor,
        Expr::Pow(..) => Opcode::pow,
        Expr::Eq(..) => Opcode::eq,
        Expr::Ne(..) => Opcode::ne,
        Expr::Lt(..) => Opcode::lt,
        Expr::Le(..) => Opcode::le,
        Expr::Gt(..) => Opcode::gt,
        Expr::Ge(..) => Opcode::ge,
        Expr::Exp(..) => Opcode::exp,
        Expr::Ln(..) => Opcode::ln,
        Expr::Sin(..) => Opcode::sin,
        Expr::Cos(..) => Opcode::cos,
        Expr::Tan(..) => Opcode::tan,
        Expr::Asin(..) => Opcode::asin,
        Expr::Acos(..) => Opcode::acos,
        Expr::Atan(..) => Opcode::atan,
        Expr::Pos(..) => Opcode::pos,
        Expr::Neg(..) => Opcode::neg,
        Expr::BitNeg(..) => Opcode::not,
        _ => Opcode::panic,
    }
}

/// The instructions that index into nested bundles by `indices`.
pub open spec fn index_ops(indices: Seq<usize>) -> Seq<(PseudoOp, Option<Marker>)> {
    indices.map_values(|i: usize| op_at(Opcode::index(i as u8)))
}

/// The instructions that load the locals `captured`, in order.
pub open spec fn load_local_ops(captured: Seq<u8>) -> Seq<(PseudoOp, Option<Marker>)> {
    captured.map_values(|l: u8| op_at(Opcode::load_local(l)))
}

/// Each operation is written as the opcode of the same operator: `<` as
/// `lt`, `>` as `gt`, `+` as `add`, bitwise negation as `not`, and so on,
/// whatever its operands.
pub proof fn lemma_operator_opcodes(l: Expr, r: Expr)
    ensures
        operator_op(Expr::Add(Box::new(l), Box::new(r))) == Opcode::add,
        operator_op(Expr::Sub(Box::new(l), Box::new(r))) == Opcode::sub,
        operator_op(Expr::Mul(Box::new(l), Box::new(r))) == Opcode::mul,
        operator_op(Expr::Div(Box::new(l), Box::new(r))) == Opcode::div,
        operator_op(Expr::Mod(Box::new(l), Box::new(r))) == Opcode::modulo,
        operator_op(Expr::BitAnd(Box::new(l), Box::new(r))) == Opcode::and,
        operator_op(Expr::BitOr(Box::new(l), Box::new(r))) == Opcode::or,
        operator_op(Expr::BitXor(Box::new(l), Box::new(r))) == Opcode::xor,
        operator_op(Expr::Pow(Box::new(l), Box::new(r))) == Opcode::pow,
        operator_op(Expr::Eq(Box::new(l), Box::new(r))) == Opcode::eq,
        operator_op(Expr::Ne(Box::new(l), Box::new(r))) == Opcode::ne,
        operator_op(Expr::Lt(Box::new(l), Box::new(r))) == Opcode::lt,
        operator_op(Expr::Le(Box::new(l), Box::new(r))) == Opcode::le,
        operator_op(Expr::Gt(Box::new(l), Box::new(r))) == Opcode::gt,
        operator_op(Expr::Ge(Box::new(l), Box::new(r))) == Opcode::ge,
        operator_op(Expr::Exp(Box::new(l))) == Opcode::exp,
        operator_op(Expr::Ln(Box::new(l))) == Opcode::ln,
        operator_op(Expr::Sin(Box::new(l))) == Opcode::sin,
        operator_op(Expr::Cos(Box::new(l))) == Opcode::cos,
        operator_op(Expr::Tan(Box::new(l))) == Opcode::tan,
        operator_op(Expr::Asin(Box::new(l))) == Opcode::asin,
        operator_op(Expr::Acos(Box::new(l))) == Opcode::acos,
        operator_op(Expr::Atan(Box::new(l))) == Opcode::atan,
        operator_op(Expr::Pos(Box::new(l))) == Opcode::pos,
        operator_op(Expr::Neg(Box::new(l))) == Opcode::neg,
        operator_op(Expr::BitNeg(Box::new(l))) == Opcode::not,
        operator_op(Expr::Panic(Box::new(l))) == Opcode::panic,
{
}

/// The instructions that building `e` from plan `c` writes, where `e` holds
/// no block, conditional, loop, match, break, skip or short-circuit: its
/// operands in order, each built from the plan the one before left, then
/// the instruction of `e` itself. `None` where `e` holds one of those.
pub open spec fn straight_ops(e: Expr, c: Plan) -> Option<Seq<(PseudoOp, Option<Marker>)>>
    decreases e, 0nat,
{
    match e {
        Expr::Int { val } => Some(seq![load_const_op(c, ValueModel::Int(val))]),
        Expr::Float { bits } => Some(seq![load_const_op(c, ValueModel::Float(bits))]),
        Expr::String { val } => Some(seq![load_const_op(c, ValueModel::String(val@))]),
        Expr::Bool { val } => Some(seq![load_const_op(c, ValueModel::Bool(val))]),
        Expr::Bundle { items } => match straight_exprs(items@, c) {
            Some(o) => Some(o.push(op_at(Opcode::bundle(items@.len() as u8)))),
            None => None,
        },
        Expr::Access { accessed, index } => match straight_ops(*accessed, c) {
            Some(o) => Some(o.push(op_at(Opcode::index(index)))),
            None => None,
        },
        Expr::Variant { tag, items } => match straight_exprs(items@, with_constant(c, ValueModel::Int(tag))->0) {
            Some(o) => Some(seq![load_const_op(c, ValueModel::Int(tag))] + o.push(op_at(Opcode::bundle(items@.len() as u8)))
                .push(op_at(Opcode::bundle(2)))),
            None => None,
        },
        Expr::Local { local } => Some(seq![op_at(Opcode::load_local(local))]),
        Expr::Fun { id, captured } => Some(seq![(PseudoOp::LoadFun(id), None)] + load_local_ops(captured@)
            + seq![op_at(Opcode::bundle(captured@.len() as u8)), op_at(Opcode::bundle(2))]),
        Expr::Call { callee, args } => match straight_exprs(args@, c) {
            Some(o1) => match straight_ops(*callee, sim_exprs(args@, c)->0) {
                Some(o2) => Some(o1 + o2.push(op_at(Opcode::call(args@.len() as u8)))),
                None => None,
            },
            None => None,
        },
        Expr::Unwrap { value, unwrapping } => match straight_ops(*value, c) {
            Some(o) => Some(o + index_ops(unwrapping_indices(unwrapping))),
            None => None,
        },
        Expr::Add(l, r) | Expr::Sub(l, r) | Expr::Mul(l, r) | Expr::Div(l, r) | Expr::Mod(l, r)
        | Expr::BitAnd(l, r) | Expr::BitOr(l, r) | Expr::BitXor(l, r) | Expr::Pow(l, r)
        | Expr::Eq(l, r) | Expr::Ne(l, r) | Expr::Lt(l, r) | Expr::Le(l, r) | Expr::Gt(l, r) | Expr::Ge(l, r) =>
            match straight_ops(*l, c) {
                Some(o1) => match straight_ops(*r, sim_expr(*l, c)->0) {
                    Some(o2) => Some(o1 + o2.push(op_at(operator_op(e)))),
                    None => None,
                },
                None => None,
            },
        Expr::Exp(a) | Expr::Ln(a) | Expr::Sin(a) | Expr::Cos(a) | Expr::Tan(a) | Expr::Asin(a)
        | Expr::Acos(a) | Expr::Atan(a) | Expr::Pos(a) | Expr::Neg(a) | Expr::BitNeg(a) | Expr::Panic(a) =>
            match straight_ops(*a, c) {
                Some(o) => Some(o.push(op_at(operator_op(e)))),
                None => None,
            },
        _ => None,
    }
}

/// The instructions that building each of `items` in order from plan `c`
/// writes, where none of them holds a jump; see `straight_ops`.
pub open spec fn straight_exprs(items: Seq<Expr>, c: Plan) -> Option<Seq<(PseudoOp, Option<Marker>)>>
    decreases items, 0nat,
{
    if items.len() == 0 {
        Some(Seq::empty())
    } else {
        match straight_ops(items[0], c) {
            Some(o) => match straight_exprs(items.drop_first(), sim_expr(items[0], c)->0) {
                Some(rest) => Some(o + rest),
                None => None,
            },
            None => None,
        }
    }
}

/// The first place of `v` in `consts` is `i` where `v` stands there and at
/// no place before; it is the end of `consts` where `v` stands nowhere.
proof fn lemma_const_index(consts: Seq<ValueModel>, v: ValueModel, i: int)
    requires
        0 <= i <= consts.len(),
        forall|j: int| 0 <= j < i ==> consts[j] != v,
        i < consts.len() ==> consts[i] == v,
    ensures
        const_index(consts, v) == i,
    decreases consts.len(),
{
    if consts.len() > 0 && i > 0 {
        assert forall|j: int| 0 <= j < i - 1 implies consts.drop_first()[j] != v by {
            assert(consts.drop_first()[j] == consts[j + 1]);
        }
        if i < consts.len() {
            assert(consts.drop_first()[i - 1] == consts[i]);
        }
        lemma_const_index(consts.drop_first(), v, i - 1);
    }
}

/// Whether `op` is what writing `p` gives, leaving aside the position that
/// a function load holds.
pub open spec fn fits(op: Opcode, p: PseudoOp) -> bool {
    match p {
        PseudoOp::Op(o) => op == o && !patchable(o),
        PseudoOp::LoadFun(_) => op is load_fun,
        PseudoOp::Noop => false,
    }
}

/// Whether `ops` are what writing the instructions `pseudo` gives, one
/// opcode each, leaving aside the positions that function loads hold.
pub open spec fn written_as(ops: Seq<Opcode>, pseudo: Seq<(PseudoOp, Option<Marker>)>) -> bool {
    &&& ops.len() == pseudo.len()
    &&& forall|k: int| 0 <= k < ops.len() ==> fits(#[trigger] ops[k], pseudo[k].0)
}

/// Whether none of the instructions `pseudo` stands at a marker or is
/// empty: writing them writes one opcode each and no jump.
spec fn unmarked(pseudo: Seq<(PseudoOp, Option<Marker>)>) -> bool {
    forall|k: int| 0 <= k < pseudo.len() ==> (#[trigger] pseudo[k]).1 is None && !(pseudo[k].0 is Noop)
}

/// Whether `b` is `a` with at most the positions that its jumps and
/// function loads hold changed.
spec fn keeps_shape(a: Seq<Opcode>, b: Seq<Opcode>) -> bool {
    &&& a.len() == b.len()
    &&& forall|k: int| 0 <= k < a.len() ==> with_target(#[trigger] a[k], 0) == with_target(b[k], 0)
}

/// Instructions written as `fo` stay written as `fo` when only positions
/// change around them.
proof fn lemma_written_kept(a: Seq<Opcode>, b: Seq<Opcode>, lo: int, fo: Seq<(PseudoOp, Option<Marker>)>)
    requires
        keeps_shape(a, b),
        0 <= lo,
        lo + fo.len() <= a.len(),
        written_as(a.subrange(lo, lo + fo.len()), fo),
    ensures
        written_as(b.subrange(lo, lo + fo.len()), fo),
{
    assert forall|k: int| 0 <= k < fo.len() implies fits(#[trigger] b.subrange(lo, lo + fo.len())[k], fo[k].0) by {
        assert(a.subrange(lo, lo + fo.len())[k] == a[lo + k]);
        assert(b.subrange(lo, lo + fo.len())[k] == b[lo + k]);
        assert(with_target(a[lo + k], 0) == with_target(b[lo + k], 0));
        assert(fits(a[lo + k], fo[k].0));
    }
}

/// The instructions that take apart the first `i` arguments `args` of a
/// function with `captured` captured locals, first argument first.
pub open spec fn args_ops(args: Seq<Pat>, captured: usize, i: nat) -> Seq<(PseudoOp, Option<Marker>)>
    decreases i,
{
    if i == 0 || i > args.len() {
        Seq::empty()
    } else {
        args_ops(args, captured, (i - 1) as nat)
            + plain_ops(decon_ops(args[i - 1], arg_offset(args.len(), i - 1, captured) as nat))
    }
}

/// The instructions that building function `f` from plan `c` writes, where
/// its body holds no jump: its arguments taken apart, its body, and a return.
pub open spec fn function_ops(f: Function, c: Plan) -> Option<Seq<(PseudoOp, Option<Marker>)>> {
    let c0 = start_function(c);
    let c1 = if args_write(f.args@) { wrote(c0) } else { c0 };
    match straight_ops(f.expr, c1) {
        Some(o) => Some(args_ops(f.args@, f.captured_count, f.args@.len()) + o + seq![op_at(Opcode::ret)]),
        None => None,
    }
}

/// Appending an opcode keeps the shape of the opcodes written before.
proof fn lemma_shape_push(ops: Seq<Opcode>, cur: Seq<Opcode>, x: Opcode)
    requires
        cur.len() >= ops.len(),
        keeps_shape(ops, cur.take(ops.len() as int)),
    ensures
        keeps_shape(ops, cur.push(x).take(ops.len() as int)),
{
    assert(cur.push(x).take(ops.len() as int) =~= cur.take(ops.len() as int));
}

/// Changing the position that an opcode holds keeps the shape.
proof fn lemma_shape_patch(ops: Seq<Opcode>, cur: Seq<Opcode>, jj: int, t: u32)
    requires
        cur.len() >= ops.len(),
        keeps_shape(ops, cur.take(ops.len() as int)),
        0 <= jj < cur.len(),
    ensures
        keeps_shape(ops, cur.update(jj, with_target(cur[jj], t)).take(ops.len() as int)),
{
    let after = cur.update(jj, with_target(cur[jj], t));
    assert forall|k: int| 0 <= k < ops.len() implies with_target(#[trigger] ops[k], 0) == with_target(after.take(ops.len() as int)[k], 0) by {
        assert(cur.take(ops.len() as int)[k] == cur[k]);
        if k == jj {
            assert(with_target(with_target(cur[jj], t), 0) == with_target(cur[jj], 0));
        }
    }
}

/// Changing only the positions that opcodes hold moves no opcode.
proof fn lemma_shape_offset(a: Seq<Opcode>, b: Seq<Opcode>, k: int)
    requires
        b.len() >= a.len(),
        keeps_shape(a, b.take(a.len() as int)),
        0 <= k <= a.len(),
    ensures
        op_offset(b, k) == op_offset(a, k),
{
    let x = a.take(k);
    let y = b.take(k);
    assert forall|i: int| 0 <= i < x.len() implies encode_opcode(#[trigger] x[i]).len() == encode_opcode(y[i]).len() by {
        assert(b.take(a.len() as int)[i] == b[i]);
        assert(with_target(a[i], 0) == with_target(b[i], 0));
        lemma_encode_opcode_len(a[i]);
        lemma_encode_opcode_len(b[i]);
    }
    lemma_encode_ops_len_eq(x, y);
}

/// The instructions that take arguments apart are plain opcodes.
proof fn lemma_args_ops_plain(args: Seq<Pat>, captured: usize, i: nat, k: int)
    requires
        0 <= k < args_ops(args, captured, i).len(),
    ensures
        args_ops(args, captured, i)[k].1 is None,
        args_ops(args, captured, i)[k].0 is Op,
    decreases i,
{
    if i > 0 && i <= args.len() {
        let prev = args_ops(args, captured, (i - 1) as nat);
        if k < prev.len() {
            lemma_args_ops_plain(args, captured, (i - 1) as nat, k);
        }
    }
}

/// Instructions that hold no jump stand at no marker.
/// `ops` with its last instruction put at marker `m`.
spec fn mark_last(ops: Seq<(PseudoOp, Option<Marker>)>, m: nat) -> Seq<(PseudoOp, Option<Marker>)> {
    ops.drop_last().push((ops.last().0, Some(Marker(m as usize))))
}

/// The instructions that building the conditional `e` from plan `c` writes
/// where its guard and both branches hold no jump, `n` markers being made
/// before: the guard, its last instruction at marker `n`; the then-branch,
/// its last instruction at marker `n + 1`; the else-branch, its last
/// instruction at marker `n + 2`. `None` for any other expression.
spec fn if_ops(e: Expr, c: Plan, n: nat) -> Option<Seq<(PseudoOp, Option<Marker>)>> {
    match e {
        Expr::If { label, guard, then_branch, else_branch } => {
            let c1 = register(c, label.0);
            let c3 = source(sim_expr(*guard, c1)->0)->0;
            let c5 = source(sim_expr(*then_branch, c3)->0)->0;
            match (straight_ops(*guard, c1), straight_ops(*then_branch, c3), straight_ops(*else_branch, c5)) {
                (Some(g), Some(t), Some(x)) => if g.len() > 0 && t.len() > 0 && x.len() > 0 {
                    Some(mark_last(g, n) + mark_last(t, n + 1) + mark_last(x, n + 2))
                } else {
                    None
                },
                _ => None,
            }
        },
        _ => None,
    }
}

/// Whether the jumps of such a conditional are wired: from the end of the
/// guard to the end of the then-branch, taken when the guard is false, so
/// that it lands on the else-branch; and from the end of the then-branch
/// over the else-branch, always taken.
spec fn if_wired(markers: Seq<MarkerInfo>, n: nat) -> bool {
    &&& markers[n as int].outgoing == Some((Marker((n + 1) as usize), JumpMode::IfFalse))
    &&& markers[(n + 1) as int].outgoing == Some((Marker((n + 2) as usize), JumpMode::Always))
}

/// The instructions that building the statement `s` from plan `c` writes
/// where it is an expression that holds no jump: the expression, then a pop
/// of its value. `None` for any other statement.
spec fn stmt_ops(s: Stmt, c: Plan) -> Option<Seq<(PseudoOp, Option<Marker>)>> {
    match s {
        Stmt::Expr { expr } => match straight_ops(*expr, c) {
            Some(o) => Some(o.push(op_at(Opcode::pop))),
            None => None,
        },
        _ => None,
    }
}

/// The instructions of a function after building the loop `e` from plan `c`
/// on top of the instructions `prev`, where the loop's parts hold no jump,
/// `prev` ends in an instruction at no marker and `n` markers were made
/// before. For a `while`: `prev` with its last instruction at marker `n`,
/// where the loop starts; the guard, its last instruction at marker
/// `n + 1`; the body, its last instruction at marker `n + 2`; the
/// else-branch, its last instruction at marker `n + 3`. For a `loop`: `prev`
/// with its last instruction at marker `n`, then the body, its last
/// instruction at marker `n + 1`. `None` for any other expression.
spec fn loop_ops(e: Expr, c: Plan, prev: Seq<(PseudoOp, Option<Marker>)>, n: nat) -> Option<Seq<(PseudoOp, Option<Marker>)>> {
    if prev.len() > 0 && prev.last().1 is None {
        match e {
            Expr::While { label, guard, do_branch, else_branch } => {
                let c1 = register(c, label.0);
                let c3 = source(sim_expr(*guard, c1)->0)->0;
                let c5 = source(sim_stmt(*do_branch, c3)->0)->0;
                match (straight_ops(*guard, c1), stmt_ops(*do_branch, c3), straight_ops(*else_branch, c5)) {
                    (Some(g), Some(d), Some(x)) => if g.len() > 0 && x.len() > 0 {
                        Some(mark_last(prev, n) + mark_last(g, n + 1) + mark_last(d, n + 2) + mark_last(x, n + 3))
                    } else {
                        None
                    },
                    _ => None,
                }
            },
            Expr::Loop { label, body } => match stmt_ops(*body, register(c, label.0)) {
                Some(b) => Some(mark_last(prev, n) + mark_last(b, n + 1)),
                None => None,
            },
            _ => None,
        }
    } else {
        None
    }
}

/// Whether the jumps of such a loop are wired: for a `while`, from the end
/// of the guard past the body, taken when the guard is false, and from the
/// end of the body back to the start; for a `loop`, from the end of the
/// body back to the start.
spec fn loop_wired(e: Expr, markers: Seq<MarkerInfo>, n: nat) -> bool {
    match e {
        Expr::While { .. } => {
            &&& markers[(n + 1) as int].outgoing == Some((Marker((n + 2) as usize), JumpMode::IfFalse))
            &&& markers[(n + 2) as int].outgoing == Some((Marker(n as usize), JumpMode::Always))
        },
        _ => markers[(n + 1) as int].outgoing == Some((Marker(n as usize), JumpMode::Always)),
    }
}

/// When the jump of a short-circuit operation is taken: past the right
/// operand when the left one is false for `and`, when it is true for `or`.
spec fn short_mode(e: Expr) -> JumpMode {
    if e is ShortAnd { JumpMode::IfFalse } else { JumpMode::IfTrue }
}

/// The instructions that building the short-circuit operation `e` from
/// plan `c` writes where neither operand holds a jump, `n` markers being
/// made before: the left operand, a copy of its value at marker `n`, where
/// the jump past the right operand starts, the copy dropped, and the right
/// operand, its last instruction at marker `n + 1`, where that jump lands.
/// `None` for any other expression.
spec fn short_ops(e: Expr, c: Plan, n: nat) -> Option<Seq<(PseudoOp, Option<Marker>)>> {
    match e {
        Expr::ShortAnd(l, r) | Expr::ShortOr(l, r) => {
            let c1 = sim_expr(*l, c)->0;
            match (straight_ops(*l, c), straight_ops(*r, wrote(c1))) {
                (Some(a), Some(b)) => if b.len() > 0 {
                    Some(a + seq![(PseudoOp::Op(Opcode::dup), Some(Marker(n as usize))), op_at(Opcode::pop)]
                        + mark_last(b, n + 1))
                } else {
                    None
                },
                _ => None,
            }
        },
        _ => None,
    }
}

proof fn lemma_straight_unmarked(e: Expr, c: Plan)
    ensures
        straight_ops(e, c) matches Some(o) ==> unmarked(o),
    decreases e, 1nat,
{
    match e {
        Expr::Bundle { items } => lemma_straight_exprs_unmarked(items@, c),
        Expr::Access { accessed, .. } => lemma_straight_unmarked(*accessed, c),
        Expr::Variant { tag, items } => lemma_straight_exprs_unmarked(items@, with_constant(c, ValueModel::Int(tag))->0),
        Expr::Call { callee, args } => {
            lemma_straight_exprs_unmarked(args@, c);
            lemma_straight_unmarked(*callee, sim_exprs(args@, c)->0);
        },
        Expr::Unwrap { value, .. } => lemma_straight_unmarked(*value, c),
        Expr::Add(l, r) | Expr::Sub(l, r) | Expr::Mul(l, r) | Expr::Div(l, r) | Expr::Mod(l, r)
        | Expr::BitAnd(l, r) | Expr::BitOr(l, r) | Expr::BitXor(l, r) | Expr::Pow(l, r)
        | Expr::Eq(l, r) | Expr::Ne(l, r) | Expr::Lt(l, r) | Expr::Le(l, r) | Expr::Gt(l, r) | Expr::Ge(l, r) => {
            lemma_straight_unmarked(*l, c);
            lemma_straight_unmarked(*r, sim_expr(*l, c)->0);
        },
        Expr::Exp(a) | Expr::Ln(a) | Expr::Sin(a) | Expr::Cos(a) | Expr::Tan(a) | Expr::Asin(a)
        | Expr::Acos(a) | Expr::Atan(a) | Expr::Pos(a) | Expr::Neg(a) | Expr::BitNeg(a) | Expr::Panic(a) =>
            lemma_straight_unmarked(*a, c),
        _ => {},
    }
}

/// Instructions of a list of expressions that hold no jump stand at no marker.
proof fn lemma_straight_exprs_unmarked(items: Seq<Expr>, c: Plan)
    ensures
        straight_exprs(items, c) matches Some(o) ==> unmarked(o),
    decreases items, 1nat,
{
    if items.len() > 0 {
        assert(decreases_to!(items => items[0]));
        lemma_straight_unmarked(items[0], c);
        lemma_straight_exprs_unmarked(items.drop_first(), sim_expr(items[0], c)->0);
    }
}

/// Writing two runs of instructions writes the first, then the second.
proof fn lemma_plain_ops_concat(a: Seq<Opcode>, b: Seq<Opcode>)
    ensures
        plain_ops(a + b) =~= plain_ops(a) + plain_ops(b),
{
}

/// The state of the code generation.
struct BytecodeBuilder {
    constants: Vec<Value>,
    function_table: HashMap<u32, String>,
    function_positions: Vec<Placeholder>,
    labels: HashMap<usize, Label>,
    frame_depth: usize,
    opcodes: Vec<(PseudoOp, Option<Marker>)>,
    cursor: Vec<u8>,
    markers: Vec<MarkerInfo>,
    /// The labels made since the function began.
    current: Ghost<Set<usize>>,
    /// What became of the top marker.
    zero: Ghost<Zero>,
    /// For each marker other than the top one that waits in a label's list,
    /// the label and whether it waits as a break.
    owner: Ghost<Map<nat, (usize, bool)>>,
}

/// Whether every place that waits in `ps` lies within `len` bytes.
spec fn waits_within(ps: Seq<Placeholder>, len: nat) -> bool {
    forall|f: int| 0 <= f < ps.len() ==>
        ((#[trigger] ps[f]) matches Placeholder::Unpatched(w)
            ==> (forall|i: int| 0 <= i < w@.len() ==> #[trigger] w@[i] + 4 <= len))
}

proof fn lemma_waits_grow(ps: Seq<Placeholder>, a: nat, b: nat)
    requires
        waits_within(ps, a),
        a <= b,
    ensures
        waits_within(ps, b),
{
    assert forall|f: int| 0 <= f < ps.len() implies
        ((#[trigger] ps[f]) matches Placeholder::Unpatched(w)
            ==> (forall|i: int| 0 <= i < w@.len() ==> #[trigger] w@[i] + 4 <= b)) by {
        if let Placeholder::Unpatched(w) = ps[f] {
            assert forall|i: int| 0 <= i < w@.len() implies #[trigger] w@[i] + 4 <= b by {
                assert(w@[i] + 4 <= a);
            }
        }
    }
}

proof fn lemma_waits_update(ps: Seq<Placeholder>, idx: int, p: Placeholder, len: nat)
    requires
        waits_within(ps, len),
        0 <= idx < ps.len(),
        p matches Placeholder::Unpatched(w) ==> (forall|i: int| 0 <= i < w@.len() ==> #[trigger] w@[i] + 4 <= len),
    ensures
        waits_within(ps.update(idx, p), len),
{
    assert forall|f: int| 0 <= f < ps.len() implies
        ((#[trigger] ps.update(idx, p)[f]) matches Placeholder::Unpatched(w)
            ==> (forall|i: int| 0 <= i < w@.len() ==> #[trigger] w@[i] + 4 <= len)) by {
        if f != idx {
            assert(ps.update(idx, p)[f] == ps[f]);
        }
    }
}

/// Whether each place waiting in `ps` is the position that follows a
/// patchable opcode of `ops`.
spec fn waits_are_slots(ps: Seq<Placeholder>, ops: Seq<Opcode>) -> bool {
    forall|f: int| 0 <= f < ps.len() ==>
        ((#[trigger] ps[f]) matches Placeholder::Unpatched(w)
            ==> (forall|i: int| #![trigger w@[i]] 0 <= i < w@.len() ==> is_slot(ops, w@[i] as nat)))
}

/// Whether the four bytes at `at` follow a patchable opcode of `ops`.
spec fn is_slot(ops: Seq<Opcode>, at: nat) -> bool {
    exists|j: int| #[trigger] slot_of(ops, j, at)
}

/// Whether an instruction is well formed: a function it loads is one of
/// the `funs` functions, and a plain opcode is not one that waits for a
/// position.
spec fn pseudo_ok(p: PseudoOp, funs: nat) -> bool {
    match p {
        PseudoOp::LoadFun(id) => id.0 < funs,
        PseudoOp::Op(op) => !patchable(op) && !(op is index_dyn),
        PseudoOp::Noop => true,
    }
}

/// Whether every known position in `ps` is a boundary of the opcodes `ops`.
spec fn patched_at_boundaries(ps: Seq<Placeholder>, ops: Seq<Opcode>) -> bool {
    forall|f: int| 0 <= f < ps.len() ==>
        ((#[trigger] ps[f]) matches Placeholder::Patched(p) ==> is_boundary(ops, p as nat))
}

proof fn lemma_patched_push(ps: Seq<Placeholder>, ops: Seq<Opcode>, op: Opcode)
    requires
        patched_at_boundaries(ps, ops),
    ensures
        patched_at_boundaries(ps, ops.push(op)),
{
    assert forall|f: int| 0 <= f < ps.len() implies
        ((#[trigger] ps[f]) matches Placeholder::Patched(p) ==> is_boundary(ops.push(op), p as nat)) by {
        if let Placeholder::Patched(p) = ps[f] {
            lemma_boundary_push(ops, op, p as nat);
        }
    }
}

proof fn lemma_patched_patch(ps: Seq<Placeholder>, ops: Seq<Opcode>, j: int, v: u32)
    requires
        patched_at_boundaries(ps, ops),
        0 <= j < ops.len(),
        patchable(ops[j]),
        targets_ok(ops),
        is_boundary(ops, v as nat),
    ensures
        patched_at_boundaries(ps, ops.update(j, with_target(ops[j], v))),
{
    lemma_targets_patch(ops, j, v);
    let after = ops.update(j, with_target(ops[j], v));
    assert forall|f: int| 0 <= f < ps.len() implies
        ((#[trigger] ps[f]) matches Placeholder::Patched(p) ==> is_boundary(after, p as nat)) by {
        if let Placeholder::Patched(p) = ps[f] {
            assert(is_boundary(after, p as nat) == is_boundary(ops, p as nat));
        }
    }
}

proof fn lemma_patched_update(ps: Seq<Placeholder>, ops: Seq<Opcode>, idx: int, p: Placeholder)
    requires
        patched_at_boundaries(ps, ops),
        0 <= idx < ps.len(),
        p matches Placeholder::Patched(x) ==> is_boundary(ops, x as nat),
    ensures
        patched_at_boundaries(ps.update(idx, p), ops),
{
    assert forall|f: int| 0 <= f < ps.len() implies
        ((#[trigger] ps.update(idx, p)[f]) matches Placeholder::Patched(x) ==> is_boundary(ops, x as nat)) by {
        if f != idx {
            assert(ps.update(idx, p)[f] == ps[f]);
        }
    }
}

/// The jump of kind `mode` to `v`.
spec fn jump_op(mode: JumpMode, v: u32) -> Opcode {
    match mode {
        JumpMode::Always => Opcode::jump(v),
        JumpMode::IfTrue => Opcode::jump_if(v),
        JumpMode::IfFalse => Opcode::jump_if_not(v),
        JumpMode::Eq => Opcode::jump_eq(v),
    }
}

proof fn lemma_slot_push(ops: Seq<Opcode>, op: Opcode, j: int, at: nat)
    requires
        slot_of(ops, j, at),
    ensures
        slot_of(ops.push(op), j, at),
{
    lemma_op_offset_push(ops, op, j);
}

proof fn lemma_slots_push(ps: Seq<Placeholder>, ops: Seq<Opcode>, op: Opcode)
    requires
        waits_are_slots(ps, ops),
    ensures
        waits_are_slots(ps, ops.push(op)),
{
    assert forall|f: int| 0 <= f < ps.len() implies
        ((#[trigger] ps[f]) matches Placeholder::Unpatched(w)
            ==> (forall|i: int| #![trigger w@[i]] 0 <= i < w@.len() ==> is_slot(ops.push(op), w@[i] as nat))) by {
        if let Placeholder::Unpatched(w) = ps[f] {
            assert forall|i: int| #![trigger w@[i]] 0 <= i < w@.len() implies is_slot(ops.push(op), w@[i] as nat) by {
                let j = choose|j: int| #[trigger] slot_of(ops, j, w@[i] as nat);
                lemma_slot_push(ops, op, j, w@[i] as nat);
            }
        }
    }
}

proof fn lemma_slots_patch(ps: Seq<Placeholder>, ops: Seq<Opcode>, jp: int, v: u32)
    requires
        waits_are_slots(ps, ops),
        0 <= jp < ops.len(),
        patchable(ops[jp]),
    ensures
        waits_are_slots(ps, ops.update(jp, with_target(ops[jp], v))),
{
    let after = ops.update(jp, with_target(ops[jp], v));
    lemma_patch_ops(ops, jp, v);
    assert forall|f: int| 0 <= f < ps.len() implies
        ((#[trigger] ps[f]) matches Placeholder::Unpatched(w)
            ==> (forall|i: int| #![trigger w@[i]] 0 <= i < w@.len() ==> is_slot(after, w@[i] as nat))) by {
        if let Placeholder::Unpatched(w) = ps[f] {
            assert forall|i: int| #![trigger w@[i]] 0 <= i < w@.len() implies is_slot(after, w@[i] as nat) by {
                let j = choose|j: int| #[trigger] slot_of(ops, j, w@[i] as nat);
                assert(op_offset(after, j) == op_offset(ops, j));
                assert(patchable(after[j]) == patchable(ops[j]));
                assert(slot_of(after, j, w@[i] as nat));
            }
        }
    }
}

proof fn lemma_slots_update(ps: Seq<Placeholder>, ops: Seq<Opcode>, idx: int, p: Placeholder)
    requires
        waits_are_slots(ps, ops),
        0 <= idx < ps.len(),
        p matches Placeholder::Unpatched(w) ==> (forall|i: int| #![trigger w@[i]] 0 <= i < w@.len() ==> is_slot(ops, w@[i] as nat)),
    ensures
        waits_are_slots(ps.update(idx, p), ops),
{
    assert forall|f: int| 0 <= f < ps.len() implies
        ((#[trigger] ps.update(idx, p)[f]) matches Placeholder::Unpatched(w)
            ==> (forall|i: int| #![trigger w@[i]] 0 <= i < w@.len() ==> is_slot(ops, w@[i] as nat))) by {
        if f != idx {
            assert(ps.update(idx, p)[f] == ps[f]);
        }
    }
}

/// Cutting an offset down to 32 bits never makes it larger.
proof fn lemma_u32_truncation(n: usize)
    ensures
        (n as u32) as nat <= n as nat,
{
    assert((n as u32) as usize <= n) by (bit_vector);
}

impl BytecodeBuilder {
    /// The plan of this builder's state.
    spec fn plan(&self) -> Plan {
        Plan {
            labels: self.labels@.map_values(|lab: Label| lab.depth as nat),
            current: self.current@,
            depth: self.frame_depth as nat,
            empty: self.opcodes@.len() == 0,
            zero: self.zero@,
            consts: models(self.constants@),
            funs: self.function_positions@.len(),
        }
    }

    /// The breaks (`brk`) or skips waiting for label `l`.
    spec fn list(&self, l: usize, brk: bool) -> Seq<Marker> {
        if brk { self.labels@[l].breaks@ } else { self.labels@[l].skips@ }
    }

    /// A list of waiting markers holds each marker once, each a valid marker
    /// owned by that list.
    spec fn list_ok(&self, l: usize, brk: bool) -> bool {
        let s = self.list(l, brk);
        &&& forall|i: int, j: int| 0 <= i < j < s.len() ==> s[i] != s[j]
        &&& forall|i: int| 0 <= i < s.len() ==> {
            let p = #[trigger] s[i];
            &&& p.0 < self.markers@.len()
            &&& if p.0 == 0 {
                self.zero@ == Zero::Pending(l, brk)
            } else {
                self.owner@.contains_key(p.0 as nat) && self.owner@[p.0 as nat] == (l, brk)
            }
        }
    }

    /// The invariant of a builder while a function is being built.
    spec fn inv(&self) -> bool {
        &&& self.markers@.len() >= 1
        &&& forall|k: int| 0 <= k < self.opcodes@.len() ==>
            ((#[trigger] self.opcodes@[k]).1 matches Some(m) ==> 0 < m.0 < self.markers@.len())
        &&& forall|m: int| 0 <= m < self.markers@.len() ==>
            ((#[trigger] self.markers@[m]).outgoing matches Some((d, _)) ==> d.0 < self.markers@.len())
        &&& forall|k: int| 0 <= k < self.opcodes@.len() ==>
            pseudo_ok((#[trigger] self.opcodes@[k]).0, self.function_positions@.len())
        &&& forall|l: usize| #[trigger] self.current@.contains(l) ==>
            self.labels@.contains_key(l) && self.list_ok(l, true) && self.list_ok(l, false)
        &&& forall|p: nat| #[trigger] self.owner@.contains_key(p) ==> {
            &&& 0 < p < self.markers@.len()
            &&& self.markers@[p as int].outgoing is None
            &&& self.current@.contains(self.owner@[p].0)
            &&& self.list(self.owner@[p].0, self.owner@[p].1).contains(Marker(p as usize))
        }
        &&& match self.zero@ {
            Zero::Free | Zero::Reserved => self.markers@[0].outgoing is None,
            Zero::Pending(l, b) => self.markers@[0].outgoing is None && self.current@.contains(l)
                && self.list(l, b).contains(Marker(0)),
            Zero::Wired => true,
        }
        &&& self.constants@.len() <= 0x10000
        &&& forall|i: int| 0 <= i < self.constants@.len() ==> writable(#[trigger] self.constants@[i].model())
    }

    /// What building code inside a function keeps: markers are only added,
    /// a marker that was free stays free unless it was made since, the
    /// instructions already written stay, each keeping the marker it has, and
    /// the code and the tables already written stay as they were.
    spec fn evolves(&self, next: &Self) -> bool {
        &&& next.markers@.len() >= self.markers@.len()
        &&& forall|m: int| 0 < m < self.markers@.len() && (#[trigger] self.markers@[m]).outgoing is None
            && !self.owner@.contains_key(m as nat) ==>
            next.markers@[m].outgoing is None && !next.owner@.contains_key(m as nat)
        &&& forall|p: nat| #[trigger] next.owner@.contains_key(p) ==>
            p >= self.markers@.len() || self.owner@.contains_key(p)
        &&& next.cursor@ == self.cursor@
        &&& next.function_positions@ == self.function_positions@
        &&& next.function_table@ == self.function_table@
        &&& next.opcodes@.len() >= self.opcodes@.len()
        &&& forall|k: int| 0 <= k < self.opcodes@.len() ==> (#[trigger] next.opcodes@[k]).0 == self.opcodes@[k].0
            && (self.opcodes@[k].1 is Some ==> next.opcodes@[k].1 == self.opcodes@[k].1)
    }

    proof fn lemma_evolves_refl(&self)
        ensures
            self.evolves(self),
    {
    }

    proof fn lemma_evolves_trans(a: &Self, b: &Self, c: &Self)
        requires
            a.evolves(b),
            b.evolves(c),
        ensures
            a.evolves(c),
    {
        assert forall|m: int| 0 < m < a.markers@.len() && (#[trigger] a.markers@[m]).outgoing is None
            && !a.owner@.contains_key(m as nat) implies
            c.markers@[m].outgoing is None && !c.owner@.contains_key(m as nat) by {
            assert(b.markers@[m].outgoing is None);
        }
    }

    /// The invariant depends on the instructions only through the markers
    /// they carry.
    proof fn lemma_inv_frame(a: &Self, b: &Self)
        requires
            a.inv(),
            b.markers@ == a.markers@,
            b.labels@ == a.labels@,
            b.current@ == a.current@,
            b.zero@ == a.zero@,
            b.owner@ == a.owner@,
            b.constants@.len() <= 0x10000,
            forall|i: int| 0 <= i < b.constants@.len() ==> writable(#[trigger] b.constants@[i].model()),
            forall|k: int| 0 <= k < b.opcodes@.len() ==>
                ((#[trigger] b.opcodes@[k]).1 matches Some(m) ==> 0 < m.0 < b.markers@.len()),
            forall|k: int| 0 <= k < b.opcodes@.len() ==>
                pseudo_ok((#[trigger] b.opcodes@[k]).0, b.function_positions@.len()),
        ensures
            b.inv(),
    {
        assert forall|l: usize| #[trigger] b.current@.contains(l) implies
            b.labels@.contains_key(l) && b.list_ok(l, true) && b.list_ok(l, false) by {
            assert(a.list_ok(l, true));
            assert(a.list_ok(l, false));
            assert(b.list(l, true) == a.list(l, true));
            assert(b.list(l, false) == a.list(l, false));
        }
        assert forall|p: nat| #[trigger] b.owner@.contains_key(p) implies {
            &&& 0 < p < b.markers@.len()
            &&& b.markers@[p as int].outgoing is None
            &&& b.current@.contains(b.owner@[p].0)
            &&& b.list(b.owner@[p].0, b.owner@[p].1).contains(Marker(p as usize))
        } by {
            assert(b.list(b.owner@[p].0, b.owner@[p].1) == a.list(a.owner@[p].0, a.owner@[p].1));
        }
        match b.zero@ {
            Zero::Pending(l, k) => {
                assert(b.list(l, k) == a.list(l, k));
            },
            _ => {},
        }
    }

    /// The position at which the next byte of code will be written, as a
    /// 32-bit offset.
    fn pos(&self) -> (p: u32)
        ensures
            p == self.cursor@.len() as u32,
            p as nat <= self.cursor@.len(),
    {
        let n = self.cursor.len();
        proof {
            lemma_u32_truncation(n);
        }
        n as u32
    }

    fn write_opcode(&mut self, opcode: Opcode)
        requires
            old(self).inv(),
            !patchable(opcode),
            !(opcode is index_dyn),
        ensures
            final(self).inv(),
            old(self).evolves(&*final(self)),
            final(self).plan() == wrote(old(self).plan()),
            final(self).markers@ == old(self).markers@,
            final(self).owner@ == old(self).owner@,
            final(self).labels@ == old(self).labels@,
            final(self).opcodes@ == old(self).opcodes@.push((PseudoOp::Op(opcode), None)),
            final(self).constants@ == old(self).constants@,
    {
        self.opcodes.push((PseudoOp::Op(opcode), None));
        proof {
            assert forall|k: int| 0 <= k < self.opcodes@.len() implies
                ((#[trigger] self.opcodes@[k]).1 matches Some(m) ==> 0 < m.0 < self.markers@.len())
                && pseudo_ok((self.opcodes@[k]).0, self.function_positions@.len()) by {
                if k < old(self).opcodes@.len() {
                    assert(self.opcodes@[k] == old(self).opcodes@[k]);
                }
            }
            Self::lemma_inv_frame(&*old(self), &*self);
        }
    }

    fn write_load_fun(&mut self, id: FunID)
        requires
            old(self).inv(),
            id.0 < old(self).function_positions@.len(),
        ensures
            final(self).inv(),
            old(self).evolves(&*final(self)),
            final(self).plan() == wrote(old(self).plan()),
            final(self).markers@ == old(self).markers@,
            final(self).owner@ == old(self).owner@,
            final(self).labels@ == old(self).labels@,
            final(self).opcodes@ == old(self).opcodes@.push((PseudoOp::LoadFun(id), None)),
            final(self).constants@ == old(self).constants@,
    {
        self.opcodes.push((PseudoOp::LoadFun(id), None));
        proof {
            assert forall|k: int| 0 <= k < self.opcodes@.len() implies
                ((#[trigger] self.opcodes@[k]).1 matches Some(m) ==> 0 < m.0 < self.markers@.len())
                && pseudo_ok((self.opcodes@[k]).0, self.function_positions@.len()) by {
                if k < old(self).opcodes@.len() {
                    assert(self.opcodes@[k] == old(self).opcodes@[k]);
                }
            }
            Self::lemma_inv_frame(&*old(self), &*self);
        }
    }

    /// The invariant holds when fresh markers with no jump are added.
    proof fn lemma_inv_grow(a: &Self, b: &Self)
        requires
            a.inv(),
            b.markers@.len() >= a.markers@.len(),
            forall|i: int| 0 <= i < a.markers@.len() ==> #[trigger] b.markers@[i] == a.markers@[i],
            forall|i: int| a.markers@.len() <= i < b.markers@.len() ==> (#[trigger] b.markers@[i]).outgoing is None,
            b.labels@ == a.labels@,
            b.current@ == a.current@,
            b.zero@ == a.zero@,
            b.owner@ == a.owner@,
            b.constants@ == a.constants@,
            forall|k: int| 0 <= k < b.opcodes@.len() ==>
                ((#[trigger] b.opcodes@[k]).1 matches Some(m) ==> 0 < m.0 < b.markers@.len()),
            forall|k: int| 0 <= k < b.opcodes@.len() ==>
                pseudo_ok((#[trigger] b.opcodes@[k]).0, b.function_positions@.len()),
        ensures
            b.inv(),
    {
        assert forall|m: int| 0 <= m < b.markers@.len() implies
            ((#[trigger] b.markers@[m]).outgoing matches Some((d, _)) ==> d.0 < b.markers@.len()) by {
            if m < a.markers@.len() {
                assert(b.markers@[m] == a.markers@[m]);
            }
        }
        assert forall|l: usize| #[trigger] b.current@.contains(l) implies
            b.labels@.contains_key(l) && b.list_ok(l, true) && b.list_ok(l, false) by {
            assert(a.list_ok(l, true));
            assert(a.list_ok(l, false));
            assert(b.list(l, true) == a.list(l, true));
            assert(b.list(l, false) == a.list(l, false));
        }
        assert forall|p: nat| #[trigger] b.owner@.contains_key(p) implies {
            &&& 0 < p < b.markers@.len()
            &&& b.markers@[p as int].outgoing is None
            &&& b.current@.contains(b.owner@[p].0)
            &&& b.list(b.owner@[p].0, b.owner@[p].1).contains(Marker(p as usize))
        } by {
            assert(b.markers@[p as int] == a.markers@[p as int]);
            assert(b.list(b.owner@[p].0, b.owner@[p].1) == a.list(a.owner@[p].0, a.owner@[p].1));
        }
        assert(b.markers@[0] == a.markers@[0]);
        match b.zero@ {
            Zero::Pending(l, k) => {
                assert(b.list(l, k) == a.list(l, k));
            },
            _ => {},
        }
    }

    /// A marker at the current place. Before any instruction that is the top
    /// marker; otherwise a fresh marker, put on the last instruction or, if
    /// that one carries a marker already, on a new instruction that does nothing.
    fn mark(&mut self) -> (m: Marker)
        requires
            old(self).inv(),
        ensures
            final(self).inv(),
            old(self).evolves(&*final(self)),
            final(self).plan() == old(self).plan(),
            final(self).owner@ == old(self).owner@,
            final(self).labels@ == old(self).labels@,
            final(self).constants@ == old(self).constants@,
            old(self).opcodes@.len() == 0 ==> m.0 == 0 && final(self).markers@ == old(self).markers@,
            old(self).opcodes@.len() > 0 ==> {
                &&& m.0 == old(self).markers@.len()
                &&& final(self).markers@.len() == m.0 + 1
                &&& final(self).markers@[m.0 as int].outgoing is None
                &&& forall|i: int| 0 <= i < m.0 ==> #[trigger] final(self).markers@[i] == old(self).markers@[i]
            },
            old(self).opcodes@.len() > 0 && old(self).opcodes@.last().1 is None ==>
                final(self).opcodes@ == old(self).opcodes@.drop_last().push((old(self).opcodes@.last().0, Some(m))),
    {
        let n = self.opcodes.len();
        if n == 0 {
            proof {
                self.lemma_evolves_refl();
            }
            return Marker(0);
        }
        let m = Marker(self.markers.len());
        self.markers.push(MarkerInfo { incoming: Vec::new(), outgoing: None });
        if self.opcodes[n - 1].1.is_some() {
            self.opcodes.push((PseudoOp::Noop, Some(m)));
        } else {
            let (op, _) = self.opcodes.pop().unwrap();
            self.opcodes.push((op, Some(m)));
        }
        proof {
            assert forall|k: int| 0 <= k < self.opcodes@.len() implies
                ((#[trigger] self.opcodes@[k]).1 matches Some(mm) ==> 0 < mm.0 < self.markers@.len())
                && pseudo_ok((self.opcodes@[k]).0, self.function_positions@.len()) by {
                if k < n - 1 {
                    assert(self.opcodes@[k] == old(self).opcodes@[k]);
                } else if k == n - 1 && self.opcodes@.len() > n {
                    assert(self.opcodes@[k] == old(self).opcodes@[k]);
                }
            }
            Self::lemma_inv_grow(&*old(self), &*self);
        }
        m
    }

    /// Wires a jump from marker `from` to marker `to`; no jump starts at
    /// `from` yet.
    fn wire_jump(&mut self, mode: JumpMode, from: Marker, to: Marker)
        requires
            from.0 < old(self).markers@.len(),
            to.0 < old(self).markers@.len(),
            old(self).markers@[from.0 as int].outgoing is None,
        ensures
            final(self).markers@.len() == old(self).markers@.len(),
            final(self).markers@[from.0 as int].outgoing == Some((to, mode)),
            forall|i: int| 0 <= i < old(self).markers@.len() && i != from.0 ==>
                (#[trigger] final(self).markers@[i]).outgoing == old(self).markers@[i].outgoing,
            final(self).opcodes@ == old(self).opcodes@,
            final(self).labels@ == old(self).labels@,
            final(self).constants@ == old(self).constants@,
            final(self).current@ == old(self).current@,
            final(self).zero@ == old(self).zero@,
            final(self).owner@ == old(self).owner@,
            final(self).frame_depth == old(self).frame_depth,
            final(self).cursor@ == old(self).cursor@,
            final(self).function_positions@ == old(self).function_positions@,
            final(self).function_table@ == old(self).function_table@,
    {
        let mut info = MarkerInfo { incoming: Vec::new(), outgoing: None };
        self.markers.set_and_swap(from.0, &mut info);
        info.outgoing = Some((to, mode));
        self.markers.set_and_swap(from.0, &mut info);
        let mut target = MarkerInfo { incoming: Vec::new(), outgoing: None };
        self.markers.set_and_swap(to.0, &mut target);
        target.incoming.push(from);
        self.markers.set_and_swap(to.0, &mut target);
    }

    /// Wires a jump from a marker that was taken as the start of a jump and
    /// waits in no label's list: a fresh one, or the reserved top marker.
    fn wire_source(&mut self, mode: JumpMode, from: Marker, to: Marker)
        requires
            old(self).inv(),
            from.0 < old(self).markers@.len(),
            to.0 < old(self).markers@.len(),
            old(self).markers@[from.0 as int].outgoing is None,
            from.0 != 0 ==> !old(self).owner@.contains_key(from.0 as nat),
            from.0 == 0 ==> old(self).zero@ == Zero::Reserved,
        ensures
            final(self).inv(),
            final(self).plan() == wire_reserved(old(self).plan(), from.0 == 0),
            final(self).markers@.len() == old(self).markers@.len(),
            final(self).markers@[from.0 as int].outgoing == Some((to, mode)),
            forall|i: int| 0 <= i < old(self).markers@.len() && i != from.0 ==>
                (#[trigger] final(self).markers@[i]).outgoing == old(self).markers@[i].outgoing,
            final(self).owner@ == old(self).owner@,
            final(self).labels@ == old(self).labels@,
            final(self).opcodes@ == old(self).opcodes@,
            final(self).constants@ == old(self).constants@,
            final(self).cursor@ == old(self).cursor@,
            final(self).function_positions@ == old(self).function_positions@,
            final(self).function_table@ == old(self).function_table@,
    {
        self.wire_jump(mode, from, to);
        proof {
            if from.0 == 0 {
                self.zero = Ghost(Zero::Wired);
            }
            let a = &*old(self);
            let b = &*self;
            assert forall|m: int| 0 <= m < b.markers@.len() implies
                ((#[trigger] b.markers@[m]).outgoing matches Some((d, _)) ==> d.0 < b.markers@.len()) by {
                if m != from.0 {
                    assert(b.markers@[m].outgoing == a.markers@[m].outgoing);
                }
            }
            assert forall|l: usize| #[trigger] b.current@.contains(l) implies
                b.labels@.contains_key(l) && b.list_ok(l, true) && b.list_ok(l, false) by {
                assert(a.list_ok(l, true));
                assert(a.list_ok(l, false));
                assert(b.list(l, true) == a.list(l, true));
                assert(b.list(l, false) == a.list(l, false));
                if from.0 == 0 {
                    assert forall|i: int| 0 <= i < b.list(l, true).len() implies (#[trigger] b.list(l, true)[i]).0 != 0 by {}
                    assert forall|i: int| 0 <= i < b.list(l, false).len() implies (#[trigger] b.list(l, false)[i]).0 != 0 by {}
                }
            }
            assert forall|p: nat| #[trigger] b.owner@.contains_key(p) implies {
                &&& 0 < p < b.markers@.len()
                &&& b.markers@[p as int].outgoing is None
                &&& b.current@.contains(b.owner@[p].0)
                &&& b.list(b.owner@[p].0, b.owner@[p].1).contains(Marker(p as usize))
            } by {
                assert(p != from.0);
                assert(b.list(b.owner@[p].0, b.owner@[p].1) == a.list(a.owner@[p].0, a.owner@[p].1));
            }
            if from.0 != 0 {
                assert(b.markers@[0].outgoing == a.markers@[0].outgoing);
                match b.zero@ {
                    Zero::Pending(l, k) => {
                        assert(b.list(l, k) == a.list(l, k));
                    },
                    _ => {},
                }
            }
        }
    }

    /// Makes label `label` at the current frame depth, with no break or skip
    /// waiting for it; those that waited for a label of that index before
    /// are dropped.
    fn register_label(&mut self, label: usize)
        requires
            old(self).inv(),
        ensures
            final(self).inv(),
            old(self).evolves(&*final(self)),
            final(self).plan() == register(old(self).plan(), label),
            final(self).markers@ == old(self).markers@,
            final(self).opcodes@ == old(self).opcodes@,
            final(self).constants@ == old(self).constants@,
            final(self).labels@.contains_key(label) && final(self).list(label, true).len() == 0
                && final(self).list(label, false).len() == 0,
    {
        broadcast use vstd::std_specs::hash::group_hash_axioms;

        self.labels.insert(label, Label { depth: self.frame_depth, breaks: Vec::new(), skips: Vec::new() });
        proof {
            let a = &*old(self);
            self.current = Ghost(a.current@.insert(label));
            self.zero = Ghost(match a.zero@ {
                Zero::Pending(k, _) => if k == label { Zero::Free } else { a.zero@ },
                _ => a.zero@,
            });
            self.owner = Ghost(a.owner@.filter_keys(|p: nat| a.owner@[p].0 != label));
            let b = &*self;
            assert forall|l: usize| #[trigger] b.current@.contains(l) implies
                b.labels@.contains_key(l) && b.list_ok(l, true) && b.list_ok(l, false) by {
                if l != label {
                    assert(a.list_ok(l, true));
                    assert(a.list_ok(l, false));
                    assert(b.list(l, true) == a.list(l, true));
                    assert(b.list(l, false) == a.list(l, false));
                    assert forall|i: int| 0 <= i < b.list(l, true).len() implies {
                        let p = #[trigger] b.list(l, true)[i];
                        p.0 != 0 ==> b.owner@.contains_key(p.0 as nat) && b.owner@[p.0 as nat] == (l, true)
                    } by {}
                    assert forall|i: int| 0 <= i < b.list(l, false).len() implies {
                        let p = #[trigger] b.list(l, false)[i];
                        p.0 != 0 ==> b.owner@.contains_key(p.0 as nat) && b.owner@[p.0 as nat] == (l, false)
                    } by {}
                } else {
                    assert(b.list(l, true).len() == 0);
                    assert(b.list(l, false).len() == 0);
                }
            }
            assert forall|p: nat| #[trigger] b.owner@.contains_key(p) implies {
                &&& 0 < p < b.markers@.len()
                &&& b.markers@[p as int].outgoing is None
                &&& b.current@.contains(b.owner@[p].0)
                &&& b.list(b.owner@[p].0, b.owner@[p].1).contains(Marker(p as usize))
            } by {
                assert(a.owner@.contains_key(p));
                assert(b.owner@[p] == a.owner@[p]);
                assert(b.list(b.owner@[p].0, b.owner@[p].1) == a.list(a.owner@[p].0, a.owner@[p].1));
            }
            match b.zero@ {
                Zero::Pending(l, k) => {
                    assert(l != label);
                    assert(b.list(l, k) == a.list(l, k));
                },
                _ => {},
            }
            assert(b.plan().labels =~= a.plan().labels.insert(label, a.frame_depth as nat));
        }
    }

    /// Takes out the breaks (`brk`) or skips waiting for label `label`,
    /// leaving none.
    fn take_list(&mut self, label: usize, brk: bool) -> (list: Vec<Marker>)
        requires
            old(self).labels@.contains_key(label),
        ensures
            list@ == old(self).list(label, brk),
            final(self).labels@.contains_key(label),
            final(self).labels@[label].depth == old(self).labels@[label].depth,
            final(self).list(label, brk) == Seq::<Marker>::empty(),
            final(self).list(label, !brk) == old(self).list(label, !brk),
            forall|l: usize| l != label ==> (#[trigger] final(self).labels@.contains_key(l)) == old(self).labels@.contains_key(l),
            forall|l: usize, k: bool| l != label && old(self).labels@.contains_key(l) ==> #[trigger] final(self).list(l, k) == old(self).list(l, k),
            forall|l: usize| l != label && old(self).labels@.contains_key(l) ==> #[trigger] final(self).labels@[l] == old(self).labels@[l],
            final(self).labels@.dom() == old(self).labels@.dom(),
            final(self).markers@ == old(self).markers@,
            final(self).opcodes@ == old(self).opcodes@,
            final(self).constants@ == old(self).constants@,
            final(self).current@ == old(self).current@,
            final(self).zero@ == old(self).zero@,
            final(self).owner@ == old(self).owner@,
            final(self).frame_depth == old(self).frame_depth,
            final(self).cursor@ == old(self).cursor@,
            final(self).function_positions@ == old(self).function_positions@,
            final(self).function_table@ == old(self).function_table@,
    {
        broadcast use vstd::std_specs::hash::group_hash_axioms;

        let mut lab = self.labels.remove(&label).unwrap();
        let mut list: Vec<Marker> = Vec::new();
        if brk {
            std::mem::swap(&mut lab.breaks, &mut list);
        } else {
            std::mem::swap(&mut lab.skips, &mut list);
        }
        self.labels.insert(label, lab);
        proof {
            assert(self.labels@.dom() =~= old(self).labels@.dom());
        }
        list
    }

    /// Wires each break (`brk`) or skip waiting for label `label` to `dest`.
    fn wire_label_list(&mut self, label: usize, brk: bool, dest: Marker)
        requires
            old(self).inv(),
            old(self).current@.contains(label),
            dest.0 < old(self).markers@.len(),
        ensures
            final(self).inv(),
            old(self).evolves(&*final(self)),
            final(self).plan() == wire_list(old(self).plan(), label, brk),
            final(self).markers@.len() == old(self).markers@.len(),
            final(self).opcodes@ == old(self).opcodes@,
            final(self).constants@ == old(self).constants@,
            old(self).list(label, brk).len() == 0 ==> final(self).markers@ == old(self).markers@,
            final(self).labels@.contains_key(label) && final(self).list(label, !brk) == old(self).list(label, !brk),
    {
        let ghost a = *old(self);
        proof {
            assert(a.list_ok(label, true));
            assert(a.list_ok(label, false));
        }
        let list = self.take_list(label, brk);
        let ghost t = *self;
        let mut i: usize = 0;
        while i < list.len()
            invariant
                0 <= i <= list@.len(),
                list@ == a.list(label, brk),
                a.list_ok(label, brk),
                a.inv(),
                self.markers@.len() == a.markers@.len(),
                forall|j: int| 0 <= j < i ==> (#[trigger] self.markers@[list@[j].0 as int]).outgoing is Some,
                forall|m: int| 0 <= m < a.markers@.len() && (forall|j: int| 0 <= j < i ==> (#[trigger] list@[j]).0 as int != m) ==>
                    (#[trigger] self.markers@[m]).outgoing == a.markers@[m].outgoing,
                forall|m: int| 0 <= m < self.markers@.len() ==>
                    ((#[trigger] self.markers@[m]).outgoing matches Some((d, _)) ==> d.0 < self.markers@.len()),
                dest.0 < a.markers@.len(),
                list@.len() == 0 ==> self.markers@ == a.markers@,
                self.opcodes@ == t.opcodes@,
                self.labels@ == t.labels@,
                self.constants@ == t.constants@,
                self.current@ == t.current@,
                self.zero@ == t.zero@,
                self.owner@ == t.owner@,
                self.frame_depth == t.frame_depth,
                self.cursor@ == t.cursor@,
                self.function_positions@ == t.function_positions@,
                self.function_table@ == t.function_table@,
            decreases list@.len() - i,
        {
            let m = list[i];
            proof {
                assert forall|j: int| 0 <= j < i implies (#[trigger] list@[j]).0 as int != m.0 as int by {
                    assert(list@[j] != list@[i as int]);
                }
                assert(self.markers@[m.0 as int].outgoing == a.markers@[m.0 as int].outgoing);
                if m.0 != 0 {
                    assert(a.owner@.contains_key(m.0 as nat));
                }
            }
            self.wire_jump(JumpMode::Always, m, dest);
            i = i + 1;
        }
        proof {
            let wired = list@;
            self.owner = Ghost(a.owner@.filter_keys(|p: nat| a.owner@[p] != (label, brk)));
            if a.zero@ == Zero::Pending(label, brk) {
                self.zero = Ghost(Zero::Wired);
            }
            let b = *self;
            assert forall|j: int| 0 <= j < wired.len() implies {
                let p = #[trigger] wired[j];
                (p.0 == 0 && a.zero@ == Zero::Pending(label, brk))
                || (p.0 != 0 && a.owner@.contains_key(p.0 as nat) && a.owner@[p.0 as nat] == (label, brk))
            } by {}
            // a marker outside the wired list keeps its jump
            assert forall|m: int| 0 <= m < b.markers@.len() && (forall|j: int| 0 <= j < wired.len() ==> (#[trigger] wired[j]).0 as int != m) implies
                (#[trigger] b.markers@[m]).outgoing == a.markers@[m].outgoing by {}
            assert forall|l: usize| #[trigger] b.current@.contains(l) implies
                b.labels@.contains_key(l) && b.list_ok(l, true) && b.list_ok(l, false) by {
                assert(a.current@.contains(l));
                assert(a.list_ok(l, true));
                assert(a.list_ok(l, false));
                assert forall|k: bool| #![auto] !(l == label && k == brk) implies b.list_ok(l, k) by {
                    if l != label {
                        assert(t.list(l, k) == a.list(l, k));
                    } else {
                        assert(t.list(label, !brk) == a.list(label, !brk));
                    }
                    assert(b.list(l, k) == a.list(l, k));
                }
                if l == label {
                    assert(b.list(l, brk).len() == 0);
                }
            }
            assert forall|p: nat| #[trigger] b.owner@.contains_key(p) implies {
                &&& 0 < p < b.markers@.len()
                &&& b.markers@[p as int].outgoing is None
                &&& b.current@.contains(b.owner@[p].0)
                &&& b.list(b.owner@[p].0, b.owner@[p].1).contains(Marker(p as usize))
            } by {
                assert(a.owner@.contains_key(p));
                let (l, k) = a.owner@[p];
                assert((l, k) != (label, brk));
                assert forall|j: int| 0 <= j < wired.len() implies (#[trigger] wired[j]).0 as int != p as int by {
                    if wired[j].0 as int == p as int {
                        assert(a.owner@[wired[j].0 as nat] == (label, brk));
                    }
                }
                assert(b.markers@[p as int].outgoing == a.markers@[p as int].outgoing);
                if l != label {
                    assert(t.list(l, k) == a.list(l, k));
                } else {
                    assert(t.list(label, !brk) == a.list(label, !brk));
                }
                assert(b.list(l, k) == a.list(l, k));
            }
            if a.zero@ != Zero::Pending(label, brk) {
                assert forall|j: int| 0 <= j < wired.len() implies (#[trigger] wired[j]).0 as int != 0 by {}
                assert(b.markers@[0].outgoing == a.markers@[0].outgoing);
                match b.zero@ {
                    Zero::Pending(l, k) => {
                        if l != label {
                            assert(t.list(l, k) == a.list(l, k));
                        } else {
                            assert(t.list(label, !brk) == a.list(label, !brk));
                        }
                        assert(b.list(l, k) == a.list(l, k));
                    },
                    _ => {},
                }
            }
            assert forall|m: int| 0 < m < a.markers@.len() && (#[trigger] a.markers@[m]).outgoing is None
                && !a.owner@.contains_key(m as nat) implies
                b.markers@[m].outgoing is None && !b.owner@.contains_key(m as nat) by {
                assert forall|j: int| 0 <= j < wired.len() implies (#[trigger] wired[j]).0 as int != m by {
                    if wired[j].0 as int == m {
                        assert(a.owner@.contains_key(wired[j].0 as nat));
                    }
                }
            }
            assert forall|l: usize| #[trigger] b.labels@.contains_key(l) implies b.labels@[l].depth == a.labels@[l].depth by {
                if l != label {
                    assert(t.labels@[l] == a.labels@[l]);
                }
            }
            assert(b.plan().labels =~= a.plan().labels);
        }
    }

    /// Writes the loading of constant `value`, pooling it unless an equal
    /// constant is pooled already.
    fn build_constant(&mut self, value: Value)
        requires
            old(self).inv(),
            with_constant(old(self).plan(), value.model()) is Some,
            writable(value.model()),
        ensures
            final(self).inv(),
            old(self).evolves(&*final(self)),
            final(self).plan() == with_constant(old(self).plan(), value.model())->0,
            final(self).markers@ == old(self).markers@,
            final(self).owner@ == old(self).owner@,
            final(self).labels@ == old(self).labels@,
            final(self).opcodes@ == old(self).opcodes@.push(load_const_op(old(self).plan(), value.model())),
    {
        proof {
            lemma_models_len(self.constants@);
        }
        let mut i: usize = 0;
        while i < self.constants.len()
            invariant
                0 <= i <= self.constants@.len(),
                self.constants@ == old(self).constants@,
                forall|j: int| 0 <= j < i ==> (#[trigger] self.constants@[j]).model() != value.model(),
            ensures
                0 <= i <= self.constants@.len(),
                self.constants@ == old(self).constants@,
                forall|j: int| 0 <= j < i ==> (#[trigger] self.constants@[j]).model() != value.model(),
                i < self.constants@.len() ==> self.constants@[i as int].model() == value.model(),
            decreases self.constants.len() - i,
        {
            if value.equals(&self.constants[i]) {
                break;
            }
            i = i + 1;
        }
        let ghost before = self.constants@;
        let index: usize = if i < self.constants.len() {
            proof {
                lemma_models_index(before, i as int);
                assert(models(before).contains(value.model()));
            }
            i
        } else {
            proof {
                assert(!models(before).contains(value.model())) by {
                    if models(before).contains(value.model()) {
                        let j = choose|j: int| 0 <= j < models(before).len() && models(before)[j] == value.model();
                        lemma_models_index(before, j);
                    }
                }
            }
            self.constants.push(value);
            proof {
                assert(self.constants@.drop_last() =~= before);
                assert forall|j: int| 0 <= j < self.constants@.len() implies writable(#[trigger] self.constants@[j].model()) by {
                    if j < before.len() {
                        assert(self.constants@[j] == before[j]);
                    }
                }
            }
            self.constants.len() - 1
        };
        proof {
            Self::lemma_inv_frame(&*old(self), &*self);
            lemma_models_len(before);
            assert forall|j: int| 0 <= j < i implies models(before)[j] != value.model() by {
                lemma_models_index(before, j);
            }
            if i < before.len() {
                lemma_models_index(before, i as int);
            }
            lemma_const_index(models(before), value.model(), i as int);
        }
        self.write_opcode(Opcode::load_const(index as u16));
    }

    /// A marker at the current place, taken as the start of a jump to be
    /// wired by the caller.
    fn take_source(&mut self) -> (m: Marker)
        requires
            old(self).inv(),
            source(old(self).plan()) is Some,
        ensures
            final(self).inv(),
            old(self).evolves(&*final(self)),
            final(self).plan() == source(old(self).plan())->0,
            m.0 < final(self).markers@.len(),
            final(self).markers@[m.0 as int].outgoing is None,
            (m.0 == 0) == old(self).plan().empty,
            m.0 == 0 ==> final(self).zero@ == Zero::Reserved,
            m.0 != 0 ==> m.0 >= old(self).markers@.len() && !final(self).owner@.contains_key(m.0 as nat),
            final(self).owner@ == old(self).owner@,
            final(self).labels@ == old(self).labels@,
            final(self).constants@ == old(self).constants@,
            old(self).opcodes@.len() > 0 ==> m.0 == old(self).markers@.len() && final(self).markers@.len() == m.0 + 1
                && forall|i: int| 0 <= i < m.0 ==> #[trigger] final(self).markers@[i] == old(self).markers@[i],
            old(self).opcodes@.len() > 0 && old(self).opcodes@.last().1 is None ==>
                final(self).opcodes@ == old(self).opcodes@.drop_last().push((old(self).opcodes@.last().0, Some(m))),
    {
        let m = self.mark();
        proof {
            if m.0 == 0 {
                self.zero = Ghost(Zero::Reserved);
                let a = &*old(self);
                let b = &*self;
                assert forall|l: usize| #[trigger] b.current@.contains(l) implies
                    b.labels@.contains_key(l) && b.list_ok(l, true) && b.list_ok(l, false) by {
                    assert(a.list_ok(l, true));
                    assert(a.list_ok(l, false));
                    assert(b.list(l, true) == a.list(l, true));
                    assert(b.list(l, false) == a.list(l, false));
                    assert forall|i: int| 0 <= i < b.list(l, true).len() implies (#[trigger] b.list(l, true)[i]).0 != 0 by {}
                    assert forall|i: int| 0 <= i < b.list(l, false).len() implies (#[trigger] b.list(l, false)[i]).0 != 0 by {}
                }
                assert forall|p: nat| #[trigger] b.owner@.contains_key(p) implies
                    b.list(b.owner@[p].0, b.owner@[p].1).contains(Marker(p as usize)) by {
                    assert(b.list(b.owner@[p].0, b.owner@[p].1) == a.list(a.owner@[p].0, a.owner@[p].1));
                }
            }
        }
        m
    }

    /// Takes a marker at the current place as a break (`brk`) or a skip of
    /// label `label`, which must be known.
    fn push_pending(&mut self, label: usize, brk: bool)
        requires
            old(self).inv(),
            old(self).labels@.contains_key(label),
            pend(old(self).plan(), label, brk) is Some,
        ensures
            final(self).inv(),
            old(self).evolves(&*final(self)),
            final(self).plan() == pend(old(self).plan(), label, brk)->0,
            final(self).constants@ == old(self).constants@,
    {
        broadcast use vstd::std_specs::hash::group_hash_axioms;

        let m = self.mark();
        let ghost b0 = *self;
        let mut lab = self.labels.remove(&label).unwrap();
        if brk {
            lab.breaks.push(m);
        } else {
            lab.skips.push(m);
        }
        self.labels.insert(label, lab);
        proof {
            let a = &*old(self);
            let cur = a.current@.contains(label);
            if cur {
                if m.0 == 0 {
                    self.zero = Ghost(Zero::Pending(label, brk));
                } else {
                    self.owner = Ghost(a.owner@.insert(m.0 as nat, (label, brk)));
                }
            }
            let b = &*self;
            assert(b.list(label, brk) == b0.list(label, brk).push(m));
            assert(b.list(label, !brk) == b0.list(label, !brk));
            assert forall|l: usize, k: bool| l != label && b0.labels@.contains_key(l) implies
                #[trigger] b.list(l, k) == b0.list(l, k) by {}
            assert forall|l: usize| #[trigger] b.current@.contains(l) implies
                b.labels@.contains_key(l) && b.list_ok(l, true) && b.list_ok(l, false) by {
                assert(a.list_ok(l, true));
                assert(a.list_ok(l, false));
                assert(b0.list(l, true) == a.list(l, true));
                assert(b0.list(l, false) == a.list(l, false));
                assert forall|k: bool| #![auto] true implies b.list_ok(l, k) by {
                    let sq = b.list(l, k);
                    let old_sq = a.list(l, k);
                    if l == label && k == brk {
                        assert(sq == old_sq.push(m));
                        assert forall|i: int| 0 <= i < old_sq.len() implies (#[trigger] old_sq[i]) != m by {
                            if m.0 != 0 {
                                assert(old_sq[i].0 < a.markers@.len());
                            } else {
                                assert(a.zero@ == Zero::Free);
                            }
                        }
                    } else {
                        assert(sq == old_sq);
                        assert forall|i: int| 0 <= i < sq.len() implies {
                            let p = #[trigger] sq[i];
                            p.0 != 0 ==> b.owner@.contains_key(p.0 as nat) && b.owner@[p.0 as nat] == (l, k)
                        } by {
                            let p = sq[i];
                            if p.0 != 0 {
                                assert(p.0 < a.markers@.len());
                            }
                        }
                    }
                }
            }
            assert forall|p: nat| #[trigger] b.owner@.contains_key(p) implies {
                &&& 0 < p < b.markers@.len()
                &&& b.markers@[p as int].outgoing is None
                &&& b.current@.contains(b.owner@[p].0)
                &&& b.list(b.owner@[p].0, b.owner@[p].1).contains(Marker(p as usize))
            } by {
                if cur && m.0 != 0 && p == m.0 as nat {
                    assert(b.list(label, brk).last() == m);
                } else {
                    assert(a.owner@.contains_key(p));
                    let (l, k) = a.owner@[p];
                    assert(a.list(l, k).contains(Marker(p as usize)));
                    assert(b0.list(l, k) == a.list(l, k));
                    if l == label && k == brk {
                        let j = choose|j: int| 0 <= j < a.list(l, k).len() && #[trigger] a.list(l, k)[j] == Marker(p as usize);
                        assert(b.list(l, k)[j] == Marker(p as usize));
                    } else {
                        assert(b.list(l, k) == a.list(l, k));
                    }
                }
            }
            match b.zero@ {
                Zero::Pending(l, k) => {
                    if cur && m.0 == 0 {
                        assert(b.list(label, brk).last() == m);
                    } else {
                        assert(a.list(l, k).contains(Marker(0)));
                        assert(b0.list(l, k) == a.list(l, k));
                        if l == label && k == brk {
                            let j = choose|j: int| 0 <= j < a.list(l, k).len() && #[trigger] a.list(l, k)[j] == Marker(0);
                            assert(b.list(l, k)[j] == Marker(0));
                        } else {
                            assert(b.list(l, k) == a.list(l, k));
                        }
                    }
                },
                _ => {},
            }
            assert forall|l: usize| #[trigger] b.labels@.contains_key(l) implies b.labels@[l].depth == a.labels@[l].depth by {}
            assert(b.plan().labels =~= a.plan().labels);
        }
    }

    fn build_do_frame(&mut self)
        requires
            old(self).inv(),
            old(self).frame_depth < usize::MAX,
        ensures
            final(self).inv(),
            old(self).evolves(&*final(self)),
            final(self).plan() == (Plan { depth: old(self).plan().depth + 1, ..wrote(old(self).plan()) }),
            final(self).constants@ == old(self).constants@,
    {
        self.write_opcode(Opcode::do_frame);
        let ghost mid = *self;
        self.frame_depth = self.frame_depth + 1;
        proof {
            Self::lemma_inv_frame(&mid, &*self);
        }
    }

    fn build_end_frame(&mut self)
        requires
            old(self).inv(),
            old(self).frame_depth > 0,
        ensures
            final(self).inv(),
            old(self).evolves(&*final(self)),
            final(self).plan() == (Plan { depth: (old(self).plan().depth - 1) as nat, ..wrote(old(self).plan()) }),
            final(self).constants@ == old(self).constants@,
    {
        self.write_opcode(Opcode::end_frame);
        let ghost mid = *self;
        self.frame_depth = self.frame_depth - 1;
        proof {
            Self::lemma_inv_frame(&mid, &*self);
        }
    }

    fn build_local(&mut self, local: u8)
        requires
            old(self).inv(),
        ensures
            final(self).inv(),
            old(self).evolves(&*final(self)),
            final(self).plan() == wrote(old(self).plan()),
            final(self).constants@ == old(self).constants@,
            final(self).opcodes@ == old(self).opcodes@.push(op_at(Opcode::load_local(local))),
            final(self).markers@ == old(self).markers@,
            final(self).labels@ == old(self).labels@,
    {
        self.write_opcode(Opcode::load_local(local))
    }

    /// Wiring a jump from a marker made since `a` keeps what `a` evolved into.
    proof fn lemma_evolves_wired(a: &Self, b: &Self, c: &Self, from: Marker)
        requires
            a.evolves(b),
            c.markers@.len() == b.markers@.len(),
            forall|i: int| 0 <= i < b.markers@.len() && i != from.0 ==>
                (#[trigger] c.markers@[i]).outgoing == b.markers@[i].outgoing,
            c.owner@ == b.owner@,
            c.cursor@ == b.cursor@,
            c.function_positions@ == b.function_positions@,
            c.function_table@ == b.function_table@,
            c.opcodes@ == b.opcodes@,
            from.0 == 0 || from.0 >= a.markers@.len(),
        ensures
            a.evolves(c),
    {
        assert forall|m: int| 0 < m < a.markers@.len() && (#[trigger] a.markers@[m]).outgoing is None
            && !a.owner@.contains_key(m as nat) implies
            c.markers@[m].outgoing is None && !c.owner@.contains_key(m as nat) by {
            assert(b.markers@[m].outgoing is None);
            assert(m != from.0);
        }
    }

    /// Takes pattern `pat` apart from the value at stack offset `at`.
    fn build_deconstruct(&mut self, pat: &Pat, at: u16)
        requires
            old(self).inv(),
            decon_ok(*pat, at as nat),
        ensures
            final(self).inv(),
            old(self).evolves(&*final(self)),
            final(self).plan() == if decon_writes(*pat) { wrote(old(self).plan()) } else { old(self).plan() },
            final(self).constants@ == old(self).constants@,
            final(self).opcodes@ == old(self).opcodes@ + plain_ops(decon_ops(*pat, at as nat)),
        decreases pat,
    {
        let ghost s0 = *self;
        proof {
            s0.lemma_evolves_refl();
        }
        match pat {
            Pat::Discard | Pat::Int(_) | Pat::Float(_) | Pat::String(_) | Pat::Bool(_) => {
                self.write_opcode(Opcode::pop_offset(at));
            },
            Pat::Local(_) => {},
            Pat::Bundle(items) => {
                self.write_opcode(Opcode::spill(at));
                self.build_deconstruct_items(items, at);
                proof {
                    Self::lemma_evolves_trans(&s0, &s0, &*self);
                }
            },
            Pat::Variant(_, items) => {
                self.write_opcode(Opcode::spill(at));
                let ghost pre = *self;
                self.write_opcode(Opcode::pop_offset(at + 1));
                proof { Self::lemma_evolves_trans(&s0, &pre, &*self); }
                let ghost pre = *self;
                self.write_opcode(Opcode::spill(at));
                proof { Self::lemma_evolves_trans(&s0, &pre, &*self); }
                let ghost pre = *self;
                self.build_deconstruct_items(items, at);
                proof { Self::lemma_evolves_trans(&s0, &pre, &*self); }
            },
        }
    }

    /// Takes apart each item of a bundle at stack offset `at`: with `n`
    /// items, item `i` lies at offset `at + n - 1 - i`.
    #[verifier::loop_isolation(false)]
    fn build_deconstruct_items(&mut self, items: &Vec<Pat>, at: u16)
        requires
            old(self).inv(),
            !old(self).plan().empty,
            items@.len() <= 0xffff,
            decon_items_ok(items@, at as nat),
        ensures
            final(self).inv(),
            old(self).evolves(&*final(self)),
            final(self).plan() == old(self).plan(),
            final(self).constants@ == old(self).constants@,
            final(self).opcodes@ == old(self).opcodes@ + plain_ops(decon_items_ops(items@, at as nat)),
        decreases items,
    {
        let ghost s0 = *self;
        proof {
            s0.lemma_evolves_refl();
        }
        let size = items.len() as u16;
        proof {
            assert(items@.subrange(0, items@.len() as int) =~= items@);
        }
        let mut i: usize = 0;
        while i < items.len()
            invariant
                0 <= i <= items@.len(),
                size as nat == items@.len(),
                self.inv(),
                s0.evolves(&*self),
                self.plan() == s0.plan(),
                self.constants@ == s0.constants@,
                decon_items_ok(items@.subrange(i as int, items@.len() as int), at as nat),
                self.opcodes@ + plain_ops(decon_items_ops(items@.subrange(i as int, items@.len() as int), at as nat))
                    == s0.opcodes@ + plain_ops(decon_items_ops(items@, at as nat)),
            decreases items@.len() - i,
        {
            let ghost rest = items@.subrange(i as int, items@.len() as int);
            proof {
                assert(rest[0] == items@[i as int]);
                assert(rest.drop_first() =~= items@.subrange(i + 1, items@.len() as int));
                assert(decreases_to!(items => items[i as int]));
            }
            let offset = size - 1 - i as u16;
            let ghost pre = *self;
            self.build_deconstruct(&items[i], at + offset);
            proof {
                Self::lemma_evolves_trans(&s0, &pre, &*self);
                let head = decon_ops(rest[0], (at + rest.len() - 1) as nat);
                let tail = decon_items_ops(rest.drop_first(), at as nat);
                assert(decon_items_ops(rest, at as nat) == head + tail);
                assert(at + offset == at + rest.len() - 1);
                lemma_plain_ops_concat(head, tail);
                assert(pre.opcodes@ + plain_ops(head + tail) =~= pre.opcodes@ + plain_ops(head) + plain_ops(tail));
            }
            i = i + 1;
        }
        proof {
            assert(items@.subrange(i as int, items@.len() as int) =~= Seq::<Pat>::empty());
            assert(plain_ops(Seq::<Opcode>::empty()) =~= Seq::empty());
            assert(self.opcodes@ + Seq::<(PseudoOp, Option<Marker>)>::empty() =~= self.opcodes@);
        }
    }

    /// Writes the indexing that reaches a value nested in bundles.
    fn build_unwrapping(&mut self, unwrapping: &Unwrapping)
        requires
            old(self).inv(),
            forall|i: int| 0 <= i < unwrapping_indices(*unwrapping).len() ==>
                #[trigger] unwrapping_indices(*unwrapping)[i] <= 255,
        ensures
            final(self).inv(),
            old(self).evolves(&*final(self)),
            final(self).plan() == if unwrapping_indices(*unwrapping).len() > 0 {
                wrote(old(self).plan())
            } else {
                old(self).plan()
            },
            final(self).constants@ == old(self).constants@,
            final(self).opcodes@ == old(self).opcodes@ + index_ops(unwrapping_indices(*unwrapping)),
            final(self).markers@ == old(self).markers@,
            final(self).labels@ == old(self).labels@,
    {
        let ghost s0 = *self;
        proof {
            s0.lemma_evolves_refl();
        }
        let mut u = unwrapping;
        let ghost all = unwrapping_indices(*unwrapping);
        let ghost mut done: nat = 0;
        loop
            invariant
                self.inv(),
                s0.evolves(&*self),
                self.constants@ == s0.constants@,
                done <= all.len(),
                unwrapping_indices(*u) == all.subrange(done as int, all.len() as int),
                forall|i: int| 0 <= i < all.len() ==> #[trigger] all[i] <= 255,
                self.plan() == if done > 0 { wrote(s0.plan()) } else { s0.plan() },
                self.opcodes@ == s0.opcodes@ + index_ops(all.take(done as int)),
                self.markers@ == s0.markers@,
                self.labels@ == s0.labels@,
            ensures
                self.inv(),
                s0.evolves(&*self),
                self.markers@ == s0.markers@,
                self.labels@ == s0.labels@,
                self.constants@ == s0.constants@,
                done == all.len(),
                self.plan() == if done > 0 { wrote(s0.plan()) } else { s0.plan() },
                self.opcodes@ == s0.opcodes@ + index_ops(all.take(done as int)),
            decreases all.len() - done,
        {
            match u {
                Unwrapping::Bundle { index, next } => {
                    proof {
                        assert(unwrapping_indices(*u) == seq![*index] + unwrapping_indices(**next));
                        assert(all.subrange(done as int, all.len() as int)[0] == *index);
                        assert(done < all.len());
                        assert(all[done as int] == *index);
                        let rest = unwrapping_indices(**next);
                        let whole = all.subrange(done as int, all.len() as int);
                        assert forall|k: int| 0 <= k < rest.len() implies rest[k] == all[done + 1 + k] by {
                            assert((seq![*index] + rest)[k + 1] == rest[k]);
                            assert(whole[k + 1] == all[done + 1 + k]);
                        }
                        assert(rest =~= all.subrange((done + 1) as int, all.len() as int));
                    }
                    let ghost before_ops = self.opcodes@;
                    let index: u8 = *index as u8;
                    self.write_opcode(Opcode::index(index));
                    u = next;
                    proof {
                        assert(index_ops(all.take((done + 1) as int)) =~= index_ops(all.take(done as int)).push(op_at(Opcode::index(index))));
                        done = done + 1;
                    }
                },
                Unwrapping::Done => {
                    proof {
                        assert(unwrapping_indices(*u).len() == 0);
                        assert(all.subrange(done as int, all.len() as int).len() == 0);
                        assert(done == all.len());
                        assert(all.take(done as int) =~= all);
                    }
                    break;
                },
            }
        }
    }

    /// Wiring jumps from markers made since `a` keeps what `a` evolved into.
    proof fn lemma_evolves_wired_all(a: &Self, b: &Self, c: &Self, ms: Seq<Marker>)
        requires
            a.evolves(b),
            c.markers@.len() == b.markers@.len(),
            forall|i: int| 0 <= i < b.markers@.len() && (forall|j: int| 0 <= j < ms.len() ==> (#[trigger] ms[j]).0 as int != i) ==>
                (#[trigger] c.markers@[i]).outgoing == b.markers@[i].outgoing,
            c.owner@ == b.owner@,
            c.cursor@ == b.cursor@,
            c.function_positions@ == b.function_positions@,
            c.function_table@ == b.function_table@,
            c.opcodes@ == b.opcodes@,
            forall|j: int| 0 <= j < ms.len() ==> (#[trigger] ms[j]).0 >= a.markers@.len(),
        ensures
            a.evolves(c),
    {
        assert forall|m: int| 0 < m < a.markers@.len() && (#[trigger] a.markers@[m]).outgoing is None
            && !a.owner@.contains_key(m as nat) implies
            c.markers@[m].outgoing is None && !c.owner@.contains_key(m as nat) by {
            assert(b.markers@[m].outgoing is None);
            assert forall|j: int| 0 <= j < ms.len() implies (#[trigger] ms[j]).0 as int != m by {}
        }
    }

    /// Wires a jump from each of `ms` to `dest`: markers taken as starts of
    /// jumps, each once, none waiting in a label's list.
    fn wire_all(&mut self, ms: &Vec<Marker>, dest: Marker)
        requires
            old(self).inv(),
            dest.0 < old(self).markers@.len(),
            forall|i: int, j: int| 0 <= i < j < ms@.len() ==> ms@[i] != ms@[j],
            forall|i: int| 0 <= i < ms@.len() ==> {
                let m = #[trigger] ms@[i];
                &&& 0 < m.0 < old(self).markers@.len()
                &&& old(self).markers@[m.0 as int].outgoing is None
                &&& !old(self).owner@.contains_key(m.0 as nat)
            },
        ensures
            final(self).inv(),
            final(self).plan() == old(self).plan(),
            final(self).markers@.len() == old(self).markers@.len(),
            forall|j: int| 0 <= j < ms@.len() ==>
                final(self).markers@[(#[trigger] ms@[j]).0 as int].outgoing == Some((dest, JumpMode::Always)),
            forall|i: int| 0 <= i < old(self).markers@.len() && (forall|j: int| 0 <= j < ms@.len() ==> (#[trigger] ms@[j]).0 as int != i) ==>
                (#[trigger] final(self).markers@[i]).outgoing == old(self).markers@[i].outgoing,
            final(self).owner@ == old(self).owner@,
            final(self).labels@ == old(self).labels@,
            final(self).opcodes@ == old(self).opcodes@,
            final(self).constants@ == old(self).constants@,
            final(self).cursor@ == old(self).cursor@,
            final(self).function_positions@ == old(self).function_positions@,
            final(self).function_table@ == old(self).function_table@,
    {
        let ghost a = *old(self);
        let mut i: usize = 0;
        while i < ms.len()
            invariant
                0 <= i <= ms@.len(),
                a.inv(),
                dest.0 < a.markers@.len(),
                forall|x: int, y: int| 0 <= x < y < ms@.len() ==> ms@[x] != ms@[y],
                forall|x: int| 0 <= x < ms@.len() ==> {
                    let m = #[trigger] ms@[x];
                    &&& 0 < m.0 < a.markers@.len()
                    &&& a.markers@[m.0 as int].outgoing is None
                    &&& !a.owner@.contains_key(m.0 as nat)
                },
                self.markers@.len() == a.markers@.len(),
                forall|m: int| 0 <= m < a.markers@.len() && (forall|j: int| 0 <= j < i ==> (#[trigger] ms@[j]).0 as int != m) ==>
                    (#[trigger] self.markers@[m]).outgoing == a.markers@[m].outgoing,
                forall|j: int| 0 <= j < i ==>
                    self.markers@[(#[trigger] ms@[j]).0 as int].outgoing == Some((dest, JumpMode::Always)),
                forall|m: int| 0 <= m < self.markers@.len() ==>
                    ((#[trigger] self.markers@[m]).outgoing matches Some((d, _)) ==> d.0 < self.markers@.len()),
                self.opcodes@ == a.opcodes@,
                self.labels@ == a.labels@,
                self.constants@ == a.constants@,
                self.current@ == a.current@,
                self.zero@ == a.zero@,
                self.owner@ == a.owner@,
                self.frame_depth == a.frame_depth,
                self.cursor@ == a.cursor@,
                self.function_positions@ == a.function_positions@,
                self.function_table@ == a.function_table@,
            decreases ms@.len() - i,
        {
            let m = ms[i];
            proof {
                assert forall|j: int| 0 <= j < i implies (#[trigger] ms@[j]).0 as int != m.0 as int by {
                    assert(ms@[j] != ms@[i as int]);
                }
            }
            self.wire_jump(JumpMode::Always, m, dest);
            i = i + 1;
        }
        proof {
            let b = *self;
            assert forall|l: usize| #[trigger] b.current@.contains(l) implies
                b.labels@.contains_key(l) && b.list_ok(l, true) && b.list_ok(l, false) by {
                assert(a.list_ok(l, true));
                assert(a.list_ok(l, false));
                assert(b.list(l, true) == a.list(l, true));
                assert(b.list(l, false) == a.list(l, false));
            }
            assert forall|p: nat| #[trigger] b.owner@.contains_key(p) implies {
                &&& 0 < p < b.markers@.len()
                &&& b.markers@[p as int].outgoing is None
                &&& b.current@.contains(b.owner@[p].0)
                &&& b.list(b.owner@[p].0, b.owner@[p].1).contains(Marker(p as usize))
            } by {
                assert forall|j: int| 0 <= j < ms@.len() implies (#[trigger] ms@[j]).0 as int != p as int by {}
                assert(b.list(b.owner@[p].0, b.owner@[p].1) == a.list(a.owner@[p].0, a.owner@[p].1));
            }
            assert forall|j: int| 0 <= j < ms@.len() implies (#[trigger] ms@[j]).0 as int != 0 by {}
            match b.zero@ {
                Zero::Pending(l, k) => {
                    assert(b.list(l, k) == a.list(l, k));
                },
                _ => {},
            }
        }
    }

    /// Builds each of `items` in order.
    fn build_exprs(&mut self, items: &Vec<Expr>)
        requires
            old(self).inv(),
            sim_exprs(items@, old(self).plan()) is Some,
        ensures
            final(self).inv(),
            old(self).evolves(&*final(self)),
            final(self).plan() == sim_exprs(items@, old(self).plan())->0,
            straight_exprs(items@, old(self).plan()) matches Some(o) ==> final(self).opcodes@ == old(self).opcodes@ + o,
            straight_exprs(items@, old(self).plan()) is Some ==>
                final(self).markers@ == old(self).markers@ && final(self).labels@ == old(self).labels@,
        decreases items, 0nat,
    {
        let ghost s0 = *self;
        let ghost goal = sim_exprs(items@, s0.plan())->0;
        proof {
            s0.lemma_evolves_refl();
            assert(items@.subrange(0, items@.len() as int) =~= items@);
        }
        let mut i: usize = 0;
        while i < items.len()
            invariant
                0 <= i <= items@.len(),
                self.inv(),
                s0.evolves(&*self),
                sim_exprs(items@.subrange(i as int, items@.len() as int), self.plan()) == Some(goal),
                straight_exprs(items@, s0.plan()) is Some ==> {
                    &&& straight_exprs(items@.subrange(i as int, items@.len() as int), self.plan()) is Some
                    &&& self.opcodes@ + straight_exprs(items@.subrange(i as int, items@.len() as int), self.plan())->0
                        == s0.opcodes@ + straight_exprs(items@, s0.plan())->0
                },
                straight_exprs(items@, s0.plan()) is Some ==> self.markers@ == s0.markers@ && self.labels@ == s0.labels@,
            decreases items@.len() - i,
        {
            proof {
                let rest = items@.subrange(i as int, items@.len() as int);
                assert(rest[0] == items@[i as int]);
                assert(rest.drop_first() =~= items@.subrange(i + 1, items@.len() as int));
                assert(decreases_to!(items => items[i as int]));
            }
            let ghost pre = *self;
            self.build_expression(&items[i]);
            proof {
                Self::lemma_evolves_trans(&s0, &pre, &*self);
                if straight_exprs(items@, s0.plan()) is Some {
                    let rest = items@.subrange(i as int, items@.len() as int);
                    let head = straight_ops(rest[0], pre.plan())->0;
                    let tail = straight_exprs(rest.drop_first(), sim_expr(rest[0], pre.plan())->0)->0;
                    assert(straight_exprs(rest, pre.plan())->0 == head + tail);
                    assert(pre.opcodes@ + (head + tail) =~= (pre.opcodes@ + head) + tail);
                }
            }
            i = i + 1;
        }
        proof {
            if straight_exprs(items@, s0.plan()) is Some {
                assert(items@.subrange(i as int, items@.len() as int) =~= Seq::<Expr>::empty());
                assert(self.opcodes@ + Seq::<(PseudoOp, Option<Marker>)>::empty() =~= self.opcodes@);
            }
        }
    }

    /// Builds each of `stmts` in order.
    fn build_statements(&mut self, stmts: &Vec<Stmt>)
        requires
            old(self).inv(),
            sim_stmts(stmts@, old(self).plan()) is Some,
        ensures
            final(self).inv(),
            old(self).evolves(&*final(self)),
            final(self).plan() == sim_stmts(stmts@, old(self).plan())->0,
        decreases stmts, 0nat,
    {
        let ghost s0 = *self;
        let ghost goal = sim_stmts(stmts@, s0.plan())->0;
        proof {
            s0.lemma_evolves_refl();
            assert(stmts@.subrange(0, stmts@.len() as int) =~= stmts@);
        }
        let mut i: usize = 0;
        while i < stmts.len()
            invariant
                0 <= i <= stmts@.len(),
                self.inv(),
                s0.evolves(&*self),
                sim_stmts(stmts@.subrange(i as int, stmts@.len() as int), self.plan()) == Some(goal),
            decreases stmts@.len() - i,
        {
            proof {
                let rest = stmts@.subrange(i as int, stmts@.len() as int);
                assert(rest[0] == stmts@[i as int]);
                assert(rest.drop_first() =~= stmts@.subrange(i + 1, stmts@.len() as int));
                assert(decreases_to!(stmts => stmts[i as int]));
            }
            let ghost pre = *self;
            self.build_statement(&stmts[i]);
            proof { Self::lemma_evolves_trans(&s0, &pre, &*self); }
            i = i + 1;
        }
    }

    /// Builds a statement.
    #[verifier::loop_isolation(false)]
    #[verifier::spinoff_prover]
    fn build_statement(&mut self, stmt: &Stmt)
        requires
            old(self).inv(),
            sim_stmt(*stmt, old(self).plan()) is Some,
        ensures
            final(self).inv(),
            old(self).evolves(&*final(self)),
            final(self).plan() == sim_stmt(*stmt, old(self).plan())->0,
            stmt_ops(*stmt, old(self).plan()) matches Some(o) ==> final(self).opcodes@ == old(self).opcodes@ + o
                && final(self).markers@ == old(self).markers@ && final(self).labels@ == old(self).labels@,
        decreases stmt, 0nat,
    {
        let ghost s0 = *self;
        proof {
            s0.lemma_evolves_refl();
        }
        match stmt {
            Stmt::Nothing => {},
            Stmt::Expr { expr } => {
                let ghost pre = *self;
                self.build_expression(expr);
                proof { Self::lemma_evolves_trans(&s0, &pre, &*self); }
                let ghost pre = *self;
                self.write_opcode(Opcode::pop);
                proof {
                    Self::lemma_evolves_trans(&s0, &pre, &*self);
                    if straight_ops(**expr, s0.plan()) is Some {
                        assert(self.opcodes@ =~= s0.opcodes@ + straight_ops(**expr, s0.plan())->0.push(op_at(Opcode::pop)));
                    }
                }
            },
            Stmt::Let { bindings } => {
                let ghost goal = sim_bindings(bindings@, s0.plan())->0;
                proof {
                    assert(bindings@.subrange(0, bindings@.len() as int) =~= bindings@);
                }
                let mut i: usize = 0;
                while i < bindings.len()
                    invariant
                        0 <= i <= bindings@.len(),
                        self.inv(),
                        s0.evolves(&*self),
                        sim_bindings(bindings@.subrange(i as int, bindings@.len() as int), self.plan()) == Some(goal),
                    decreases bindings@.len() - i,
                {
                    proof {
                        let rest = bindings@.subrange(i as int, bindings@.len() as int);
                        assert(rest[0] == bindings@[i as int]);
                        assert(rest.drop_first() =~= bindings@.subrange(i + 1, bindings@.len() as int));
                        assert(decreases_to!(bindings => bindings[i as int]));
                        assert(decreases_to!(bindings[i as int] => bindings[i as int].1));
                    }
                    let ghost pre = *self;
                    self.build_expression(&bindings[i].1);
                    proof { Self::lemma_evolves_trans(&s0, &pre, &*self); }
                    let ghost pre = *self;
                    self.build_deconstruct(&bindings[i].0, 0);
                    proof { Self::lemma_evolves_trans(&s0, &pre, &*self); }
                    i = i + 1;
                }
            },
            Stmt::Block { stmts, needs_frame } => {
                if *needs_frame {
                    let ghost pre = *self;
                    self.write_opcode(Opcode::do_frame);
                    proof { Self::lemma_evolves_trans(&s0, &pre, &*self); }
                }
                let ghost pre = *self;
                self.build_statements(stmts);
                proof { Self::lemma_evolves_trans(&s0, &pre, &*self); }
                if *needs_frame {
                    let ghost pre = *self;
                    self.write_opcode(Opcode::end_frame);
                    proof { Self::lemma_evolves_trans(&s0, &pre, &*self); }
                }
            },
        }
    }

    /// Builds each of `items`, then a bundle of them.
    fn build_small_bundle(&mut self, items: &Vec<Expr>)
        requires
            old(self).inv(),
            items@.len() <= 255,
            sim_exprs(items@, old(self).plan()) is Some,
        ensures
            final(self).inv(),
            old(self).evolves(&*final(self)),
            final(self).plan() == wrote(sim_exprs(items@, old(self).plan())->0),
            straight_exprs(items@, old(self).plan()) matches Some(o) ==>
                final(self).opcodes@ == old(self).opcodes@ + o.push(op_at(Opcode::bundle(items@.len() as u8))),
            straight_exprs(items@, old(self).plan()) is Some ==>
                final(self).markers@ == old(self).markers@ && final(self).labels@ == old(self).labels@,
        decreases items, 1nat,
    {
        let ghost s0 = *self;
        self.build_exprs(items);
        let ghost pre = *self;
        self.write_opcode(Opcode::bundle(items.len() as u8));
        proof { Self::lemma_evolves_trans(&s0, &pre, &*self); }
    }

    /// Builds a function value: the function, a bundle of the captured
    /// locals, and a bundle of the two.
    fn build_fun(&mut self, id: FunID, captured: &Vec<u8>)
        requires
            old(self).inv(),
            id.0 < old(self).plan().funs,
            captured@.len() <= 255,
        ensures
            final(self).inv(),
            old(self).evolves(&*final(self)),
            final(self).plan() == wrote(old(self).plan()),
            final(self).opcodes@ == old(self).opcodes@ + (seq![(PseudoOp::LoadFun(id), None)] + load_local_ops(captured@)
                + seq![op_at(Opcode::bundle(captured@.len() as u8)), op_at(Opcode::bundle(2))]),
            final(self).markers@ == old(self).markers@,
            final(self).labels@ == old(self).labels@,
    {
        let ghost s0 = *self;
        self.write_load_fun(id);
        let mut i: usize = 0;
        while i < captured.len()
            invariant
                0 <= i <= captured@.len(),
                self.inv(),
                s0.evolves(&*self),
                self.plan() == wrote(s0.plan()),
                self.opcodes@ == s0.opcodes@.push((PseudoOp::LoadFun(id), None)) + load_local_ops(captured@.take(i as int)),
                self.markers@ == s0.markers@,
                self.labels@ == s0.labels@,
            decreases captured@.len() - i,
        {
            let ghost pre = *self;
            self.write_opcode(Opcode::load_local(captured[i]));
            proof {
                Self::lemma_evolves_trans(&s0, &pre, &*self);
                assert(load_local_ops(captured@.take(i + 1)) =~= load_local_ops(captured@.take(i as int)).push(op_at(Opcode::load_local(captured@[i as int]))));
            }
            i = i + 1;
        }
        proof {
            assert(captured@.take(i as int) =~= captured@);
        }
        let ghost pre = *self;
        self.write_opcode(Opcode::bundle(captured.len() as u8));
        proof { Self::lemma_evolves_trans(&s0, &pre, &*self); }
        let ghost pre = *self;
        self.write_opcode(Opcode::bundle(2));
        proof { Self::lemma_evolves_trans(&s0, &pre, &*self); }
    }

    /// Builds an expression.
    #[verifier::rlimit(80)]
    #[verifier::spinoff_prover]
    fn build_expression(&mut self, expr: &Expr)
        requires
            old(self).inv(),
            sim_expr(*expr, old(self).plan()) is Some,
        ensures
            final(self).inv(),
            old(self).evolves(&*final(self)),
            final(self).plan() == sim_expr(*expr, old(self).plan())->0,
            straight_ops(*expr, old(self).plan()) matches Some(o) ==> final(self).opcodes@ == old(self).opcodes@ + o,
            straight_ops(*expr, old(self).plan()) is Some ==>
                final(self).markers@ == old(self).markers@ && final(self).labels@ == old(self).labels@,
            if_ops(*expr, old(self).plan(), old(self).markers@.len()) matches Some(o) ==>
                final(self).opcodes@ == old(self).opcodes@ + o && if_wired(final(self).markers@, old(self).markers@.len()),
            short_ops(*expr, old(self).plan(), old(self).markers@.len()) matches Some(o) ==>
                final(self).opcodes@ == old(self).opcodes@ + o
                && final(self).markers@[old(self).markers@.len() as int].outgoing
                    == Some((Marker((old(self).markers@.len() + 1) as usize), short_mode(*expr))),
            loop_ops(*expr, old(self).plan(), old(self).opcodes@, old(self).markers@.len()) matches Some(o) ==>
                final(self).opcodes@ == o && loop_wired(*expr, final(self).markers@, old(self).markers@.len()),
        decreases expr, 1nat,
    {
        let ghost s0 = *self;
        proof {
            s0.lemma_evolves_refl();
        }
        match expr {
            Expr::Int { val } => self.build_constant(Value::Int(*val)),
            Expr::Float { bits } => self.build_constant(Value::Float(*bits)),
            Expr::String { val } => {
                let v = val.clone();
                let bytes = v.as_str().as_bytes();
                let _count = bytes.len();
                self.build_constant(Value::String(v));
            },
            Expr::Bool { val } => self.build_constant(Value::Bool(*val)),
            Expr::Bundle { items } => self.build_small_bundle(items),
            Expr::Access { accessed, index } => {
                let ghost pre = *self;
                self.build_expression(accessed);
                proof { Self::lemma_evolves_trans(&s0, &pre, &*self); }
                let ghost pre = *self;
                self.write_opcode(Opcode::index(*index));
                proof { Self::lemma_evolves_trans(&s0, &pre, &*self); }
            },
            Expr::Variant { tag, items } => {
                let ghost pre = *self;
                self.build_constant(Value::Int(*tag));
                proof { Self::lemma_evolves_trans(&s0, &pre, &*self); }
                let ghost pre = *self;
                self.build_small_bundle(items);
                proof { Self::lemma_evolves_trans(&s0, &pre, &*self); }
                let ghost pre = *self;
                self.write_opcode(Opcode::bundle(2));
                proof { Self::lemma_evolves_trans(&s0, &pre, &*self); }
            },
            Expr::Local { local } => self.build_local(*local),
            Expr::Fun { id, captured } => self.build_fun(*id, captured),
            Expr::Call { callee, args } => {
                let ghost pre = *self;
                self.build_exprs(args);
                proof { Self::lemma_evolves_trans(&s0, &pre, &*self); }
                let ghost pre = *self;
                self.build_expression(callee);
                proof { Self::lemma_evolves_trans(&s0, &pre, &*self); }
                let ghost pre = *self;
                self.write_opcode(Opcode::call(args.len() as u8));
                proof { Self::lemma_evolves_trans(&s0, &pre, &*self); }
            },
            Expr::Unwrap { value, unwrapping } => {
                let ghost pre = *self;
                self.build_expression(value);
                proof { Self::lemma_evolves_trans(&s0, &pre, &*self); }
                let ghost pre = *self;
                self.build_unwrapping(unwrapping);
                proof { Self::lemma_evolves_trans(&s0, &pre, &*self); }
            },
            Expr::ShortAnd(left, right) => self.build_short_circuit(expr, left, right, JumpMode::IfFalse),
            Expr::ShortOr(left, right) => self.build_short_circuit(expr, left, right, JumpMode::IfTrue),
            Expr::Add(left, right) => {
                let ghost pre = *self;
                self.build_expression(left);
                proof { Self::lemma_evolves_trans(&s0, &pre, &*self); }
                let ghost pre = *self;
                self.build_expression(right);
                proof { Self::lemma_evolves_trans(&s0, &pre, &*self); }
                let ghost pre = *self;
                self.write_opcode(Opcode::add);
                proof { Self::lemma_evolves_trans(&s0, &pre, &*self); }
            },
            Expr::Sub(left, right) => {
                let ghost pre = *self;
                self.build_expression(left);
                proof { Self::lemma_evolves_trans(&s0, &pre, &*self); }
                let ghost pre = *self;
                self.build_expression(right);
                proof { Self::lemma_evolves_trans(&s0, &pre, &*self); }
                let ghost pre = *self;
                self.write_opcode(Opcode::sub);
                proof { Self::lemma_evolves_trans(&s0, &pre, &*self); }
            },
            Expr::Mul(left, right) => {
                let ghost pre = *self;
                self.build_expression(left);
                proof { Self::lemma_evolves_trans(&s0, &pre, &*self); }
                let ghost pre = *self;
                self.build_expression(right);
                proof { Self::lemma_evolves_trans(&s0, &pre, &*self); }
                let ghost pre = *self;
                self.write_opcode(Opcode::mul);
                proof { Self::lemma_evolves_trans(&s0, &pre, &*self); }
            },
            Expr::Div(left, right) => {
                let ghost pre = *self;
                self.build_expression(left);
                proof { Self::lemma_evolves_trans(&s0, &pre, &*self); }
                let ghost pre = *self;
                self.build_expression(right);
                proof { Self::lemma_evolves_trans(&s0, &pre, &*self); }
                let ghost pre = *self;
                self.write_opcode(Opcode::div);
                proof { Self::lemma_evolves_trans(&s0, &pre, &*self); }
            },
            Expr::Mod(left, right) => {
                let ghost pre = *self;
                self.build_expression(left);
                proof { Self::lemma_evolves_trans(&s0, &pre, &*self); }
                let ghost pre = *self;
                self.build_expression(right);
                proof { Self::lemma_evolves_trans(&s0, &pre, &*self); }
                let ghost pre = *self;
                self.write_opcode(Opcode::modulo);
                proof { Self::lemma_evolves_trans(&s0, &pre, &*self); }
            },
            Expr::BitAnd(left, right) => {
                let ghost pre = *self;
                self.build_expression(left);
                proof { Self::lemma_evolves_trans(&s0, &pre, &*self); }
                let ghost pre = *self;
                self.build_expression(right);
                proof { Self::lemma_evolves_trans(&s0, &pre, &*self); }
                let ghost pre = *self;
                self.write_opcode(Opcode::and);
                proof { Self::lemma_evolves_trans(&s0, &pre, &*self); }
            },
            Expr::BitOr(left, right) => {
                let ghost pre = *self;
                self.build_expression(left);
                proof { Self::lemma_evolves_trans(&s0, &pre, &*self); }
                let ghost pre = *self;
                self.build_expression(right);
                proof { Self::lemma_evolves_trans(&s0, &pre, &*self); }
                let ghost pre = *self;
                self.write_opcode(Opcode::or);
                proof { Self::lemma_evolves_trans(&s0, &pre, &*self); }
            },
            Expr::BitXor(left, right) => {
                let ghost pre = *self;
                self.build_expression(left);
                proof { Self::lemma_evolves_trans(&s0, &pre, &*self); }
                let ghost pre = *self;
                self.build_expression(right);
                proof { Self::lemma_evolves_trans(&s0, &pre, &*self); }
                let ghost pre = *self;
                self.write_opcode(Opcode::xor);
                proof { Self::lemma_evolves_trans(&s0, &pre, &*self); }
            },
            Expr::Pow(left, right) => {
                let ghost pre = *self;
                self.build_expression(left);
                proof { Self::lemma_evolves_trans(&s0, &pre, &*self); }
                let ghost pre = *self;
                self.build_expression(right);
                proof { Self::lemma_evolves_trans(&s0, &pre, &*self); }
                let ghost pre = *self;
                self.write_opcode(Opcode::pow);
                proof { Self::lemma_evolves_trans(&s0, &pre, &*self); }
            },
            Expr::Eq(left, right) => {
                let ghost pre = *self;
                self.build_expression(left);
                proof { Self::lemma_evolves_trans(&s0, &pre, &*self); }
                let ghost pre = *self;
                self.build_expression(right);
                proof { Self::lemma_evolves_trans(&s0, &pre, &*self); }
                let ghost pre = *self;
                self.write_opcode(Opcode::eq);
                proof { Self::lemma_evolves_trans(&s0, &pre, &*self); }
            },
            Expr::Ne(left, right) => {
                let ghost pre = *self;
                self.build_expression(left);
                proof { Self::lemma_evolves_trans(&s0, &pre, &*self); }
                let ghost pre = *self;
                self.build_expression(right);
                proof { Self::lemma_evolves_trans(&s0, &pre, &*self); }
                let ghost pre = *self;
                self.write_opcode(Opcode::ne);
                proof { Self::lemma_evolves_trans(&s0, &pre, &*self); }
            },
            Expr::Lt(left, right) => {
                let ghost pre = *self;
                self.build_expression(left);
                proof { Self::lemma_evolves_trans(&s0, &pre, &*self); }
                let ghost pre = *self;
                self.build_expression(right);
                proof { Self::lemma_evolves_trans(&s0, &pre, &*self); }
                let ghost pre = *self;
                self.write_opcode(Opcode::lt);
                proof { Self::lemma_evolves_trans(&s0, &pre, &*self); }
            },
            Expr::Le(left, right) => {
                let ghost pre = *self;
                self.build_expression(left);
                proof { Self::lemma_evolves_trans(&s0, &pre, &*self); }
                let ghost pre = *self;
                self.build_expression(right);
                proof { Self::lemma_evolves_trans(&s0, &pre, &*self); }
                let ghost pre = *self;
                self.write_opcode(Opcode::le);
                proof { Self::lemma_evolves_trans(&s0, &pre, &*self); }
            },
            Expr::Gt(left, right) => {
                let ghost pre = *self;
                self.build_expression(left);
                proof { Self::lemma_evolves_trans(&s0, &pre, &*self); }
                let ghost pre = *self;
                self.build_expression(right);
                proof { Self::lemma_evolves_trans(&s0, &pre, &*self); }
                let ghost pre = *self;
                self.write_opcode(Opcode::gt);
                proof { Self::lemma_evolves_trans(&s0, &pre, &*self); }
            },
            Expr::Ge(left, right) => {
                let ghost pre = *self;
                self.build_expression(left);
                proof { Self::lemma_evolves_trans(&s0, &pre, &*self); }
                let ghost pre = *self;
                self.build_expression(right);
                proof { Self::lemma_evolves_trans(&s0, &pre, &*self); }
                let ghost pre = *self;
                self.write_opcode(Opcode::ge);
                proof { Self::lemma_evolves_trans(&s0, &pre, &*self); }
            },
            Expr::Exp(arg) => {
                let ghost pre = *self;
                self.build_expression(arg);
                proof { Self::lemma_evolves_trans(&s0, &pre, &*self); }
                let ghost pre = *self;
                self.write_opcode(Opcode::exp);
                proof { Self::lemma_evolves_trans(&s0, &pre, &*self); }
            },
            Expr::Ln(arg) => {
                let ghost pre = *self;
                self.build_expression(arg);
                proof { Self::lemma_evolves_trans(&s0, &pre, &*self); }
                let ghost pre = *self;
                self.write_opcode(Opcode::ln);
                proof { Self::lemma_evolves_trans(&s0, &pre, &*self); }
            },
            Expr::Sin(arg) => {
                let ghost pre = *self;
                self.build_expression(arg);
                proof { Self::lemma_evolves_trans(&s0, &pre, &*self); }
                let ghost pre = *self;
                self.write_opcode(Opcode::sin);
                proof { Self::lemma_evolves_trans(&s0, &pre, &*self); }
            },
            Expr::Cos(arg) => {
                let ghost pre = *self;
                self.build_expression(arg);
                proof { Self::lemma_evolves_trans(&s0, &pre, &*self); }
                let ghost pre = *self;
                self.write_opcode(Opcode::cos);
                proof { Self::lemma_evolves_trans(&s0, &pre, &*self); }
            },
            Expr::Tan(arg) => {
                let ghost pre = *self;
                self.build_expression(arg);
                proof { Self::lemma_evolves_trans(&s0, &pre, &*self); }
                let ghost pre = *self;
                self.write_opcode(Opcode::tan);
                proof { Self::lemma_evolves_trans(&s0, &pre, &*self); }
            },
            Expr::Asin(arg) => {
                let ghost pre = *self;
                self.build_expression(arg);
                proof { Self::lemma_evolves_trans(&s0, &pre, &*self); }
                let ghost pre = *self;
                self.write_opcode(Opcode::asin);
                proof { Self::lemma_evolves_trans(&s0, &pre, &*self); }
            },
            Expr::Acos(arg) => {
                let ghost pre = *self;
                self.build_expression(arg);
                proof { Self::lemma_evolves_trans(&s0, &pre, &*self); }
                let ghost pre = *self;
                self.write_opcode(Opcode::acos);
                proof { Self::lemma_evolves_trans(&s0, &pre, &*self); }
            },
            Expr::Atan(arg) => {
                let ghost pre = *self;
                self.build_expression(arg);
                proof { Self::lemma_evolves_trans(&s0, &pre, &*self); }
                let ghost pre = *self;
                self.write_opcode(Opcode::atan);
                proof { Self::lemma_evolves_trans(&s0, &pre, &*self); }
            },
            Expr::Pos(arg) => {
                let ghost pre = *self;
                self.build_expression(arg);
                proof { Self::lemma_evolves_trans(&s0, &pre, &*self); }
                let ghost pre = *self;
                self.write_opcode(Opcode::pos);
                proof { Self::lemma_evolves_trans(&s0, &pre, &*self); }
            },
            Expr::Neg(arg) => {
                let ghost pre = *self;
                self.build_expression(arg);
                proof { Self::lemma_evolves_trans(&s0, &pre, &*self); }
                let ghost pre = *self;
                self.write_opcode(Opcode::neg);
                proof { Self::lemma_evolves_trans(&s0, &pre, &*self); }
            },
            Expr::BitNeg(arg) => {
                let ghost pre = *self;
                self.build_expression(arg);
                proof { Self::lemma_evolves_trans(&s0, &pre, &*self); }
                let ghost pre = *self;
                self.write_opcode(Opcode::not);
                proof { Self::lemma_evolves_trans(&s0, &pre, &*self); }
            },
            Expr::Panic(arg) => {
                let ghost pre = *self;
                self.build_expression(arg);
                proof { Self::lemma_evolves_trans(&s0, &pre, &*self); }
                let ghost pre = *self;
                self.write_opcode(Opcode::panic);
                proof { Self::lemma_evolves_trans(&s0, &pre, &*self); }
            },
            Expr::Block { .. } => self.build_block_expression(expr),
            Expr::If { .. } => self.build_if(expr),
            Expr::While { .. } => self.build_while(expr),
            Expr::Loop { .. } => self.build_loop(expr),
            Expr::Match { .. } => self.build_match(expr),
            Expr::Break { .. } => self.build_break(expr),
            Expr::Skip { .. } => self.build_skip(expr),
        }
    }

    /// Builds `left`, then `right` only where `left` does not decide the
    /// result: the jump over `right` is taken on `mode`.
    #[verifier::rlimit(50)]
    #[verifier::spinoff_prover]
    fn build_short_circuit(&mut self, expr: &Expr, left: &Expr, right: &Expr, mode: JumpMode)
        requires
            old(self).inv(),
            *expr == Expr::ShortAnd(Box::new(*left), Box::new(*right))
                || *expr == Expr::ShortOr(Box::new(*left), Box::new(*right)),
            sim_expr(*expr, old(self).plan()) is Some,
        ensures
            final(self).inv(),
            old(self).evolves(&*final(self)),
            final(self).plan() == sim_expr(*expr, old(self).plan())->0,
            short_ops(*expr, old(self).plan(), old(self).markers@.len()) matches Some(o) ==>
                final(self).opcodes@ == old(self).opcodes@ + o
                && final(self).markers@[old(self).markers@.len() as int].outgoing
                    == Some((Marker((old(self).markers@.len() + 1) as usize), mode)),
        decreases expr, 0nat,
    {
        let ghost s0 = *self;
        let ghost n = old(self).markers@.len();
        let ghost frag = short_ops(*expr, old(self).plan(), n) is Some;
        proof {
            s0.lemma_evolves_refl();
            assert(decreases_to!(expr => left));
            assert(decreases_to!(expr => right));
        }
        let ghost pre = *self;
        self.build_expression(left);
        proof { Self::lemma_evolves_trans(&s0, &pre, &*self); }
        let ghost pre = *self;
        self.write_opcode(Opcode::dup);
        proof { Self::lemma_evolves_trans(&s0, &pre, &*self); }
        let ghost pre = *self;
        let right_start = self.take_source();
        proof { Self::lemma_evolves_trans(&s0, &pre, &*self); }
        let ghost s_d = *self;
        let ghost pre = *self;
        self.write_opcode(Opcode::pop);
        proof { Self::lemma_evolves_trans(&s0, &pre, &*self); }
        let ghost c_r = self.plan();
        let ghost pre = *self;
        self.build_expression(right);
        proof { Self::lemma_evolves_trans(&s0, &pre, &*self); }
        let ghost o_r = self.opcodes@;
        proof {
            if frag {
                lemma_straight_unmarked(*right, c_r);
            }
        }
        let ghost pre = *self;
        let right_end = self.mark();
        proof { Self::lemma_evolves_trans(&s0, &pre, &*self); }
        proof {
            if frag {
                let a = straight_ops(*left, s0.plan())->0;
                let b = straight_ops(*right, c_r)->0;
                assert(right_start.0 == n);
                assert(s_d.opcodes@ =~= s0.opcodes@ + a + seq![(PseudoOp::Op(Opcode::dup), Some(Marker(n as usize)))]);
                assert(right_end.0 == n + 1);
                assert(self.opcodes@ =~= s0.opcodes@ + (a + seq![(PseudoOp::Op(Opcode::dup), Some(Marker(n as usize))),
                    op_at(Opcode::pop)] + mark_last(b, n + 1)));
            }
        }
        let ghost pre = *self;
        self.wire_source(mode, right_start, right_end);
        proof { Self::lemma_evolves_wired(&s0, &pre, &*self, right_start); }
    }

    /// Whether `m` is a marker made since the builder had `base` markers,
    /// free and waiting in no list.
    spec fn fresh(&self, m: Marker, base: nat) -> bool {
        &&& base <= m.0 < self.markers@.len()
        &&& self.markers@[m.0 as int].outgoing is None
        &&& !self.owner@.contains_key(m.0 as nat)
    }

    /// The frame depth at which label `label` was made.
    fn get_label(&self, label: usize) -> (lab: &Label)
        requires
            self.labels@.contains_key(label),
        ensures
            *lab == self.labels@[label],
    {
        broadcast use vstd::std_specs::hash::group_hash_axioms;

        self.labels.get(&label).unwrap()
    }

    /// Leaves the frames down to that of `label`, then takes a marker as a
    /// break (`brk`) or a skip of it.
    fn build_jump_out(&mut self, label: usize, brk: bool)
        requires
            old(self).inv(),
            jump_out(old(self).plan(), label, brk) is Some,
        ensures
            final(self).inv(),
            old(self).evolves(&*final(self)),
            final(self).plan() == jump_out(old(self).plan(), label, brk)->0,
    {
        let ghost s0 = *self;
        proof {
            s0.lemma_evolves_refl();
            assert(self.plan().labels.contains_key(label));
        }
        let current_depth = self.frame_depth;
        let label_depth = self.get_label(label).depth;
        let frame_distance = current_depth - label_depth;
        let mut k: usize = 0;
        while k < frame_distance
            invariant
                0 <= k <= frame_distance,
                frame_distance == s0.frame_depth - s0.labels@[label].depth,
                self.inv(),
                s0.evolves(&*self),
                self.plan() == if k > 0 { wrote(s0.plan()) } else { s0.plan() },
            decreases frame_distance - k,
        {
            let ghost pre = *self;
            self.write_opcode(Opcode::end_frame);
            proof { Self::lemma_evolves_trans(&s0, &pre, &*self); }
            k = k + 1;
        }
        let ghost pre = *self;
        self.push_pending(label, brk);
        proof { Self::lemma_evolves_trans(&s0, &pre, &*self); }
    }

    /// Builds a decision tree. Each leaf takes a marker as the start of a
    /// jump: a success to `success_markers`, a failure to `failure_markers`.
    #[verifier::spinoff_prover]
    fn build_decision(&mut self, decision: &Decision, success_markers: &mut Vec<Marker>, failure_markers: &mut Vec<Marker>)
        requires
            old(self).inv(),
            !old(self).plan().empty,
            sim_decision(*decision, old(self).plan()) is Some,
        ensures
            final(self).inv(),
            old(self).evolves(&*final(self)),
            final(self).plan() == sim_decision(*decision, old(self).plan())->0,
            final(success_markers)@.len() >= old(success_markers)@.len(),
            final(success_markers)@.subrange(0, old(success_markers)@.len() as int) == old(success_markers)@,
            final(failure_markers)@.len() >= old(failure_markers)@.len(),
            final(failure_markers)@.subrange(0, old(failure_markers)@.len() as int) == old(failure_markers)@,
            forall|i: int| old(success_markers)@.len() <= i < final(success_markers)@.len() ==>
                final(self).fresh(#[trigger] final(success_markers)@[i], old(self).markers@.len()),
            forall|i: int| old(failure_markers)@.len() <= i < final(failure_markers)@.len() ==>
                final(self).fresh(#[trigger] final(failure_markers)@[i], old(self).markers@.len()),
            forall|i: int, j: int| old(success_markers)@.len() <= i < j < final(success_markers)@.len() ==>
                final(success_markers)@[i] != final(success_markers)@[j],
            forall|i: int, j: int| old(failure_markers)@.len() <= i < j < final(failure_markers)@.len() ==>
                final(failure_markers)@[i] != final(failure_markers)@[j],
            forall|i: int, j: int| old(success_markers)@.len() <= i < final(success_markers)@.len()
                && old(failure_markers)@.len() <= j < final(failure_markers)@.len() ==>
                final(success_markers)@[i] != final(failure_markers)@[j],
        decreases decision, 1nat,
    {
        let ghost s0 = *self;
        proof {
            s0.lemma_evolves_refl();
        }
        match decision {
            Decision::Failure => {
                let m = self.take_source();
                failure_markers.push(m);
                proof {
                    assert(failure_markers@.subrange(0, old(failure_markers)@.len() as int) =~= old(failure_markers)@);
                }
            },
            Decision::Success { expr } => {
                let ghost pre = *self;
                self.build_expression(expr);
                proof { Self::lemma_evolves_trans(&s0, &pre, &*self); }
                proof {
                    lemma_sim_expr_keeps(**expr, s0.plan());
                }
                let ghost pre = *self;
                let m = self.take_source();
                proof { Self::lemma_evolves_trans(&s0, &pre, &*self); }
                success_markers.push(m);
                proof {
                    assert(success_markers@.subrange(0, old(success_markers)@.len() as int) =~= old(success_markers)@);
                }
            },
            Decision::Test { .. } => {
                self.build_test(decision, success_markers, failure_markers);
            },
        }
    }

    /// Builds a block expression: its statements, then its result, inside a frame where it needs one; breaks out of its label land after it.
    #[verifier::rlimit(50)]
    #[verifier::spinoff_prover]
    fn build_block_expression(&mut self, expr: &Expr)
        requires
            old(self).inv(),
            expr is Block,
            sim_expr(*expr, old(self).plan()) is Some,
        ensures
            final(self).inv(),
            old(self).evolves(&*final(self)),
            final(self).plan() == sim_expr(*expr, old(self).plan())->0,
        decreases expr, 0nat,
    {
        let ghost s0 = *self;
        proof {
            s0.lemma_evolves_refl();
        }
        match expr {
            Expr::Block { label, stmts, result, needs_frame } => {
                if let Some(l) = label {
                    let ghost pre = *self;
                    self.register_label(l.0);
                    proof { Self::lemma_evolves_trans(&s0, &pre, &*self); }
                }
                let ghost c1 = self.plan();
                if *needs_frame {
                    let ghost pre = *self;
                    self.build_do_frame();
                    proof { Self::lemma_evolves_trans(&s0, &pre, &*self); }
                }
                let ghost c2 = self.plan();
                let ghost pre = *self;
                self.build_statements(stmts);
                proof { Self::lemma_evolves_trans(&s0, &pre, &*self); }
                let ghost c3 = self.plan();
                let ghost pre = *self;
                self.build_expression(result);
                proof { Self::lemma_evolves_trans(&s0, &pre, &*self); }
                let ghost c4 = self.plan();
                proof {
                    lemma_sim_stmts_keeps(stmts@, c2);
                    lemma_sim_expr_keeps(**result, c3);
                }
                if *needs_frame {
                    let ghost pre = *self;
                    self.build_end_frame();
                    proof { Self::lemma_evolves_trans(&s0, &pre, &*self); }
                }
                let ghost pre = *self;
                let block_end = self.mark();
                proof { Self::lemma_evolves_trans(&s0, &pre, &*self); }
                if let Some(l) = label {
                    let ghost pre = *self;
                    self.wire_label_list(l.0, true, block_end);
                    proof { Self::lemma_evolves_trans(&s0, &pre, &*self); }
                }
            },
            _ => {},
        }
    }

    /// Builds an `if`: the guard, a jump over the then-branch when it is false, the then-branch, a jump over the else-branch, then the else-branch.
    #[verifier::rlimit(50)]
    #[verifier::spinoff_prover]
    fn build_if(&mut self, expr: &Expr)
        requires
            old(self).inv(),
            expr is If,
            sim_expr(*expr, old(self).plan()) is Some,
        ensures
            final(self).inv(),
            old(self).evolves(&*final(self)),
            final(self).plan() == sim_expr(*expr, old(self).plan())->0,
            if_ops(*expr, old(self).plan(), old(self).markers@.len()) matches Some(o) ==>
                final(self).opcodes@ == old(self).opcodes@ + o && if_wired(final(self).markers@, old(self).markers@.len()),
        decreases expr, 0nat,
    {
        let ghost s0 = *self;
        let ghost n = old(self).markers@.len();
        let ghost frag = if_ops(*expr, old(self).plan(), n) is Some;
        proof {
            s0.lemma_evolves_refl();
        }
        match expr {
            Expr::If { label, guard, then_branch, else_branch } => {
                let ghost pre = *self;
                self.register_label(label.0);
                proof { Self::lemma_evolves_trans(&s0, &pre, &*self); }
                let ghost c1 = self.plan();
                let ghost s_r = *self;
                let ghost pre = *self;
                self.build_expression(guard);
                proof { Self::lemma_evolves_trans(&s0, &pre, &*self); }
                let ghost c2 = self.plan();
                let ghost o_g = self.opcodes@;
                proof {
                    if frag {
                        lemma_straight_unmarked(**guard, c1);
                    }
                }
                let ghost pre = *self;
                let guard_end = self.take_source();
                proof { Self::lemma_evolves_trans(&s0, &pre, &*self); }
                let ghost s_g = *self;
                let ghost c3 = self.plan();
                let ghost pre = *self;
                self.build_expression(then_branch);
                proof { Self::lemma_evolves_trans(&s0, &pre, &*self); }
                let ghost c4 = self.plan();
                let ghost o_t = self.opcodes@;
                proof {
                    if frag {
                        lemma_straight_unmarked(**then_branch, c3);
                    }
                }
                let ghost pre = *self;
                let then_end = self.take_source();
                proof { Self::lemma_evolves_trans(&s0, &pre, &*self); }
                let ghost s_t = *self;
                let ghost c5 = self.plan();
                let ghost pre = *self;
                self.build_expression(else_branch);
                proof { Self::lemma_evolves_trans(&s0, &pre, &*self); }
                let ghost c6 = self.plan();
                let ghost o_e = self.opcodes@;
                proof {
                    if frag {
                        lemma_straight_unmarked(**else_branch, c5);
                    }
                }
                let ghost pre = *self;
                let else_end = self.mark();
                proof { Self::lemma_evolves_trans(&s0, &pre, &*self); }
                proof {
                    if frag {
                        let g = straight_ops(**guard, c1)->0;
                        let t = straight_ops(**then_branch, c3)->0;
                        let x = straight_ops(**else_branch, c5)->0;
                        assert(o_g == s0.opcodes@ + g);
                        assert(g.last() == o_g.last());
                        assert(guard_end.0 == n);
                        assert(s_g.opcodes@ =~= s0.opcodes@ + mark_last(g, n));
                        assert(then_end.0 == n + 1);
                        assert(s_t.opcodes@ =~= s0.opcodes@ + mark_last(g, n) + mark_last(t, n + 1));
                        assert(else_end.0 == n + 2);
                        assert(self.opcodes@ =~= s0.opcodes@ + (mark_last(g, n) + mark_last(t, n + 1) + mark_last(x, n + 2)));
                    }
                }
                proof {
                    lemma_sim_expr_keeps(**guard, c1);
                    lemma_sim_expr_keeps(**then_branch, c3);
                    lemma_sim_expr_keeps(**else_branch, c5);
                    if guard_end.0 == 0 {
                        assert(c3.zero == Zero::Reserved);
                        assert(c4.zero == Zero::Reserved);
                        assert(then_end.0 != 0);
                        assert(c6.zero == Zero::Reserved);
                    }
                    if then_end.0 == 0 {
                        assert(c6.zero == Zero::Reserved);
                    }
                    assert(guard_end != then_end);
                    assert(self.markers@[guard_end.0 as int].outgoing is None);
                    assert(self.markers@[then_end.0 as int].outgoing is None);
                }
                let ghost pre = *self;
                self.wire_source(JumpMode::IfFalse, guard_end, then_end);
                proof { Self::lemma_evolves_wired(&s0, &pre, &*self, guard_end); }
                let ghost pre = *self;
                self.wire_source(JumpMode::Always, then_end, else_end);
                proof {
                    Self::lemma_evolves_wired(&s0, &pre, &*self, then_end);
                    assert(self.plan().current.contains(label.0));
                }
                let ghost pre = *self;
                self.wire_label_list(label.0, true, else_end);
                proof { Self::lemma_evolves_trans(&s0, &pre, &*self); }
            },
            _ => {},
        }
    }

    /// Builds a `while`: the guard, a jump to the else-branch when it is false, the body, a jump back to the guard, then the else-branch.
    #[verifier::rlimit(50)]
    #[verifier::spinoff_prover]
    fn build_while(&mut self, expr: &Expr)
        requires
            old(self).inv(),
            expr is While,
            sim_expr(*expr, old(self).plan()) is Some,
        ensures
            final(self).inv(),
            old(self).evolves(&*final(self)),
            final(self).plan() == sim_expr(*expr, old(self).plan())->0,
            loop_ops(*expr, old(self).plan(), old(self).opcodes@, old(self).markers@.len()) matches Some(o) ==>
                final(self).opcodes@ == o && loop_wired(*expr, final(self).markers@, old(self).markers@.len()),
        decreases expr, 0nat,
    {
        let ghost s0 = *self;
        let ghost n = old(self).markers@.len();
        let ghost frag = loop_ops(*expr, old(self).plan(), old(self).opcodes@, n) is Some;
        proof {
            s0.lemma_evolves_refl();
        }
        match expr {
            Expr::While { label, guard, do_branch, else_branch } => {
                let ghost pre = *self;
                self.register_label(label.0);
                proof { Self::lemma_evolves_trans(&s0, &pre, &*self); }
                let ghost c1 = self.plan();
                let ghost pre = *self;
                let guard_start = self.mark();
                proof { Self::lemma_evolves_trans(&s0, &pre, &*self); }
                let ghost s_s = *self;
                let ghost pre = *self;
                self.build_expression(guard);
                proof { Self::lemma_evolves_trans(&s0, &pre, &*self); }
                let ghost c2 = self.plan();
                proof {
                    if frag {
                        lemma_straight_unmarked(**guard, c1);
                    }
                }
                let ghost pre = *self;
                let guard_end = self.take_source();
                proof { Self::lemma_evolves_trans(&s0, &pre, &*self); }
                let ghost s_g = *self;
                let ghost c3 = self.plan();
                let ghost pre = *self;
                self.build_statement(do_branch);
                proof { Self::lemma_evolves_trans(&s0, &pre, &*self); }
                let ghost c4 = self.plan();
                let ghost pre = *self;
                let block_end = self.take_source();
                proof { Self::lemma_evolves_trans(&s0, &pre, &*self); }
                let ghost s_d = *self;
                let ghost c5 = self.plan();
                let ghost pre = *self;
                self.build_expression(else_branch);
                proof { Self::lemma_evolves_trans(&s0, &pre, &*self); }
                let ghost c6 = self.plan();
                proof {
                    if frag {
                        lemma_straight_unmarked(**else_branch, c5);
                    }
                }
                let ghost pre = *self;
                let else_end = self.mark();
                proof { Self::lemma_evolves_trans(&s0, &pre, &*self); }
                proof {
                    if frag {
                        let g = straight_ops(**guard, c1)->0;
                        let d = stmt_ops(**do_branch, c3)->0;
                        let x = straight_ops(**else_branch, c5)->0;
                        assert(guard_start.0 == n);
                        assert(s_s.opcodes@ =~= mark_last(s0.opcodes@, n));
                        assert(guard_end.0 == n + 1);
                        assert(s_g.opcodes@ =~= mark_last(s0.opcodes@, n) + mark_last(g, n + 1));
                        assert(block_end.0 == n + 2);
                        assert(s_d.opcodes@ =~= mark_last(s0.opcodes@, n) + mark_last(g, n + 1) + mark_last(d, n + 2));
                        assert(else_end.0 == n + 3);
                        assert(self.opcodes@ =~= mark_last(s0.opcodes@, n) + mark_last(g, n + 1) + mark_last(d, n + 2)
                            + mark_last(x, n + 3));
                    }
                }
                proof {
                    lemma_sim_expr_keeps(**guard, c1);
                    lemma_sim_stmt_keeps(**do_branch, c3);
                    lemma_sim_expr_keeps(**else_branch, c5);
                    if guard_end.0 == 0 {
                        assert(c3.zero == Zero::Reserved);
                        assert(c4.zero == Zero::Reserved);
                        assert(block_end.0 != 0);
                        assert(c6.zero == Zero::Reserved);
                    }
                    if block_end.0 == 0 {
                        assert(c6.zero == Zero::Reserved);
                    }
                    assert(guard_end != block_end);
                    assert(self.markers@[guard_end.0 as int].outgoing is None);
                    assert(self.markers@[block_end.0 as int].outgoing is None);
                }
                let ghost pre = *self;
                self.wire_source(JumpMode::IfFalse, guard_end, block_end);
                proof { Self::lemma_evolves_wired(&s0, &pre, &*self, guard_end); }
                let ghost pre = *self;
                self.wire_source(JumpMode::Always, block_end, guard_start);
                proof {
                    Self::lemma_evolves_wired(&s0, &pre, &*self, block_end);
                    assert(self.plan().current.contains(label.0));
                }
                let ghost pre = *self;
                self.wire_label_list(label.0, true, else_end);
                proof { Self::lemma_evolves_trans(&s0, &pre, &*self); }
                let ghost pre = *self;
                self.wire_label_list(label.0, false, guard_start);
                proof { Self::lemma_evolves_trans(&s0, &pre, &*self); }
            },
            _ => {},
        }
    }

    /// Builds a `loop`: the body and a jump back to its start.
    #[verifier::rlimit(50)]
    #[verifier::spinoff_prover]
    fn build_loop(&mut self, expr: &Expr)
        requires
            old(self).inv(),
            expr is Loop,
            sim_expr(*expr, old(self).plan()) is Some,
        ensures
            final(self).inv(),
            old(self).evolves(&*final(self)),
            final(self).plan() == sim_expr(*expr, old(self).plan())->0,
            loop_ops(*expr, old(self).plan(), old(self).opcodes@, old(self).markers@.len()) matches Some(o) ==>
                final(self).opcodes@ == o && loop_wired(*expr, final(self).markers@, old(self).markers@.len()),
        decreases expr, 0nat,
    {
        let ghost s0 = *self;
        let ghost n = old(self).markers@.len();
        let ghost frag = loop_ops(*expr, old(self).plan(), old(self).opcodes@, n) is Some;
        proof {
            s0.lemma_evolves_refl();
        }
        match expr {
            Expr::Loop { label, body } => {
                let ghost pre = *self;
                self.register_label(label.0);
                proof { Self::lemma_evolves_trans(&s0, &pre, &*self); }
                let ghost c1 = self.plan();
                let ghost pre = *self;
                let loop_start = self.mark();
                proof { Self::lemma_evolves_trans(&s0, &pre, &*self); }
                let ghost s_s = *self;
                let ghost pre = *self;
                self.build_statement(body);
                proof { Self::lemma_evolves_trans(&s0, &pre, &*self); }
                let ghost c2 = self.plan();
                let ghost pre = *self;
                let loop_end = self.take_source();
                proof { Self::lemma_evolves_trans(&s0, &pre, &*self); }
                proof {
                    if frag {
                        let b = stmt_ops(**body, c1)->0;
                        assert(loop_start.0 == n);
                        assert(s_s.opcodes@ =~= mark_last(s0.opcodes@, n));
                        assert(loop_end.0 == n + 1);
                        assert(self.opcodes@ =~= mark_last(s0.opcodes@, n) + mark_last(b, n + 1));
                    }
                }
                proof {
                    lemma_sim_stmt_keeps(**body, c1);
                }
                let ghost pre = *self;
                self.wire_source(JumpMode::Always, loop_end, loop_start);
                proof {
                    Self::lemma_evolves_wired(&s0, &pre, &*self, loop_end);
                    assert(self.plan().current.contains(label.0));
                }
                let ghost pre = *self;
                self.wire_label_list(label.0, true, loop_end);
                proof { Self::lemma_evolves_trans(&s0, &pre, &*self); }
                let ghost pre = *self;
                self.wire_label_list(label.0, false, loop_start);
                proof { Self::lemma_evolves_trans(&s0, &pre, &*self); }
            },
            _ => {},
        }
    }

    /// Builds a `match` inside a frame: the scrutinee, the decision tree, the fallback where every test fails.
    #[verifier::rlimit(50)]
    #[verifier::spinoff_prover]
    fn build_match(&mut self, expr: &Expr)
        requires
            old(self).inv(),
            expr is Match,
            sim_expr(*expr, old(self).plan()) is Some,
        ensures
            final(self).inv(),
            old(self).evolves(&*final(self)),
            final(self).plan() == sim_expr(*expr, old(self).plan())->0,
        decreases expr, 0nat,
    {
        let ghost s0 = *self;
        proof {
            s0.lemma_evolves_refl();
        }
        match expr {
            Expr::Match { scrutinee, decision, fallback } => {
                let ghost pre = *self;
                self.write_opcode(Opcode::do_frame);
                proof { Self::lemma_evolves_trans(&s0, &pre, &*self); }
                let ghost c0 = self.plan();
                let ghost pre = *self;
                self.build_expression(scrutinee);
                proof { Self::lemma_evolves_trans(&s0, &pre, &*self); }
                proof {
                    lemma_sim_expr_keeps(**scrutinee, c0);
                }
                let mut failure_markers: Vec<Marker> = Vec::new();
                let mut success_markers: Vec<Marker> = Vec::new();
                let ghost s_d = *self;
                let ghost pre = *self;
                self.build_decision(decision, &mut success_markers, &mut failure_markers);
                proof { Self::lemma_evolves_trans(&s0, &pre, &*self); }
                let ghost pre = *self;
                let failure_dest = self.mark();
                proof { Self::lemma_evolves_trans(&s0, &pre, &*self); }
                proof {
                    assert(success_markers@.subrange(0, 0) =~= Seq::<Marker>::empty());
                    assert forall|i: int| 0 <= i < failure_markers@.len() implies {
                        let m = #[trigger] failure_markers@[i];
                        &&& 0 < m.0 < self.markers@.len()
                        &&& self.markers@[m.0 as int].outgoing is None
                        &&& !self.owner@.contains_key(m.0 as nat)
                    } by {
                        assert(pre.fresh(failure_markers@[i], s_d.markers@.len()));
                    }
                }
                let ghost pre = *self;
                self.wire_all(&failure_markers, failure_dest);
                proof { Self::lemma_evolves_wired_all(&s0, &pre, &*self, failure_markers@); }
                let ghost s_w = *self;
                proof {
                    assert forall|i: int| 0 <= i < success_markers@.len() implies
                        s_w.fresh(#[trigger] success_markers@[i], s_d.markers@.len()) by {
                        let m = success_markers@[i];
                        assert forall|j: int| 0 <= j < failure_markers@.len() implies (#[trigger] failure_markers@[j]).0 as int != m.0 as int by {}
                    }
                }
                let ghost pre = *self;
                self.build_expression(fallback);
                proof { Self::lemma_evolves_trans(&s0, &pre, &*self); }
                let ghost pre = *self;
                let success_dest = self.mark();
                proof { Self::lemma_evolves_trans(&s0, &pre, &*self); }
                proof {
                    assert forall|i: int| 0 <= i < success_markers@.len() implies {
                        let m = #[trigger] success_markers@[i];
                        &&& 0 < m.0 < self.markers@.len()
                        &&& self.markers@[m.0 as int].outgoing is None
                        &&& !self.owner@.contains_key(m.0 as nat)
                    } by {
                        assert(s_w.fresh(success_markers@[i], s_d.markers@.len()));
                    }
                }
                let ghost pre = *self;
                self.wire_all(&success_markers, success_dest);
                proof { Self::lemma_evolves_wired_all(&s0, &pre, &*self, success_markers@); }
                let ghost pre = *self;
                self.write_opcode(Opcode::end_frame);
                proof { Self::lemma_evolves_trans(&s0, &pre, &*self); }
            },
            _ => {},
        }
    }

    /// Builds a `break`: its value, then a jump out of the frames down to its label.
    fn build_break(&mut self, expr: &Expr)
        requires
            old(self).inv(),
            expr is Break,
            sim_expr(*expr, old(self).plan()) is Some,
        ensures
            final(self).inv(),
            old(self).evolves(&*final(self)),
            final(self).plan() == sim_expr(*expr, old(self).plan())->0,
        decreases expr, 0nat,
    {
        let ghost s0 = *self;
        proof {
            s0.lemma_evolves_refl();
        }
        match expr {
            Expr::Break { value, label } => {
                let ghost pre = *self;
                self.build_expression(value);
                proof { Self::lemma_evolves_trans(&s0, &pre, &*self); }
                let ghost pre = *self;
                self.build_jump_out(label.0, true);
                proof { Self::lemma_evolves_trans(&s0, &pre, &*self); }
            },
            _ => {},
        }
    }

    /// Builds a `skip`: a jump out of the frames down to its label, back to the loop start.
    fn build_skip(&mut self, expr: &Expr)
        requires
            old(self).inv(),
            expr is Skip,
            sim_expr(*expr, old(self).plan()) is Some,
        ensures
            final(self).inv(),
            old(self).evolves(&*final(self)),
            final(self).plan() == sim_expr(*expr, old(self).plan())->0,
        decreases expr, 0nat,
    {
        let ghost s0 = *self;
        proof {
            s0.lemma_evolves_refl();
        }
        match expr {
            Expr::Skip { label } => {
                self.build_jump_out(label.0, false);
            },
            _ => {},
        }
    }

    /// Builds a decision node that tests a local against a pattern.
    #[verifier::rlimit(50)]
    #[verifier::spinoff_prover]
    fn build_test(&mut self, decision: &Decision, success_markers: &mut Vec<Marker>, failure_markers: &mut Vec<Marker>)
        requires
            old(self).inv(),
            !old(self).plan().empty,
            decision is Test,
            sim_decision(*decision, old(self).plan()) is Some,
        ensures
            final(self).inv(),
            old(self).evolves(&*final(self)),
            final(self).plan() == sim_decision(*decision, old(self).plan())->0,
            final(success_markers)@.len() >= old(success_markers)@.len(),
            final(success_markers)@.subrange(0, old(success_markers)@.len() as int) == old(success_markers)@,
            final(failure_markers)@.len() >= old(failure_markers)@.len(),
            final(failure_markers)@.subrange(0, old(failure_markers)@.len() as int) == old(failure_markers)@,
            forall|i: int| old(success_markers)@.len() <= i < final(success_markers)@.len() ==>
                final(self).fresh(#[trigger] final(success_markers)@[i], old(self).markers@.len()),
            forall|i: int| old(failure_markers)@.len() <= i < final(failure_markers)@.len() ==>
                final(self).fresh(#[trigger] final(failure_markers)@[i], old(self).markers@.len()),
            forall|i: int, j: int| old(success_markers)@.len() <= i < j < final(success_markers)@.len() ==>
                final(success_markers)@[i] != final(success_markers)@[j],
            forall|i: int, j: int| old(failure_markers)@.len() <= i < j < final(failure_markers)@.len() ==>
                final(failure_markers)@[i] != final(failure_markers)@[j],
            forall|i: int, j: int| old(success_markers)@.len() <= i < final(success_markers)@.len()
                && old(failure_markers)@.len() <= j < final(failure_markers)@.len() ==>
                final(success_markers)@[i] != final(failure_markers)@[j],
            decision matches Decision::Test { local, pat, .. } ==> {
                let n0 = old(self).opcodes@.len() as int;
                let at = Some(Marker(old(self).markers@.len() as usize));
                let c = old(self).plan();
                &&& final(self).opcodes@.len() > n0 + 1
                &&& final(self).opcodes@[n0].0 == PseudoOp::Op(Opcode::load_local(*local))
                &&& match **pat {
                    Pat::Int(v) => final(self).opcodes@[n0 + 1] == (load_const_op(c, ValueModel::Int(v)).0, at),
                    Pat::Float(v) => final(self).opcodes@[n0 + 1] == (load_const_op(c, ValueModel::Float(v)).0, at),
                    Pat::String(v) => final(self).opcodes@[n0 + 1] == (load_const_op(c, ValueModel::String(v@)).0, at),
                    Pat::Bool(v) => final(self).opcodes@[n0 + 1] == (load_const_op(c, ValueModel::Bool(v)).0, at),
                    Pat::Variant(tag, _) => final(self).opcodes@.len() > n0 + 2
                        && final(self).opcodes@[n0 + 1].0 == PseudoOp::Op(Opcode::index(0))
                        && final(self).opcodes@[n0 + 2] == (load_const_op(c, ValueModel::Int(tag as i64)).0, at),
                    Pat::Discard | Pat::Local(_) | Pat::Bundle(_) =>
                        final(self).opcodes@[n0 + 1] == (PseudoOp::Op(Opcode::pop), at),
                }
            },
            decision matches Decision::Test { pat, .. } ==>
                final(self).markers@[old(self).markers@.len() as int].outgoing matches Some((to, mode))
                && to.0 > old(self).markers@.len()
                && mode == match **pat {
                    Pat::Int(_) | Pat::Float(_) | Pat::String(_) | Pat::Bool(_) | Pat::Variant(_, _) => JumpMode::Eq,
                    Pat::Discard | Pat::Local(_) | Pat::Bundle(_) => JumpMode::Always,
                },
        decreases decision, 0nat,
    {
        let ghost s0 = *self;
        proof {
            s0.lemma_evolves_refl();
        }
        match decision {
            Decision::Test { local, pat, success, failure } => {
                let ghost pre = *self;
                self.build_local(*local);
                proof { Self::lemma_evolves_trans(&s0, &pre, &*self); }
                let ghost pre = *self;
                let (mode, deconstructs) = match &**pat {
                    Pat::Discard => {
                        self.write_opcode(Opcode::pop);
                        (JumpMode::Always, false)
                    },
                    Pat::Int(v) => {
                        self.build_constant(Value::Int(*v));
                        (JumpMode::Eq, false)
                    },
                    Pat::Float(v) => {
                        self.build_constant(Value::Float(*v));
                        (JumpMode::Eq, false)
                    },
                    Pat::String(v) => {
                        let v2 = v.clone();
                        let bytes = v2.as_str().as_bytes();
                        let _count = bytes.len();
                        self.build_constant(Value::String(v2));
                        (JumpMode::Eq, false)
                    },
                    Pat::Bool(v) => {
                        self.build_constant(Value::Bool(*v));
                        (JumpMode::Eq, false)
                    },
                    Pat::Local(_) => {
                        self.write_opcode(Opcode::pop);
                        (JumpMode::Always, true)
                    },
                    Pat::Bundle(_) => {
                        self.write_opcode(Opcode::pop);
                        (JumpMode::Always, true)
                    },
                    Pat::Variant(tag, _) => {
                        self.write_opcode(Opcode::index(0));
                        let ghost mid = *self;
                        self.build_constant(Value::Int(*tag as i64));
                        proof { Self::lemma_evolves_trans(&pre, &mid, &*self); }
                        (JumpMode::Eq, true)
                    },
                };
                proof {
                    Self::lemma_evolves_trans(&s0, &pre, &*self);
                    assert(deconstructs == test_deconstructs(**pat));
                    assert(self.plan() == sim_test(**pat, wrote(s0.plan()))->0);
                }
                let ghost c2 = self.plan();
                proof {
                    assert(self.markers@.len() == s0.markers@.len());
                    assert(self.opcodes@.len() > 0);
                }
                let ghost pre = *self;
                let failure_begin = self.take_source();
                proof { Self::lemma_evolves_trans(&s0, &pre, &*self); }
                let ghost s_f = *self;
                proof { s_f.lemma_evolves_refl(); }
                let ghost succ0 = success_markers@;
                let ghost fail0 = failure_markers@;
                let ghost pre = *self;
                self.build_decision(failure, success_markers, failure_markers);
                proof { Self::lemma_evolves_trans(&s0, &pre, &*self); Self::lemma_evolves_trans(&s_f, &pre, &*self); }
                let ghost s_m = *self;
                let ghost succ1 = success_markers@;
                let ghost fail1 = failure_markers@;
                let ghost pre = *self;
                let success_begin = self.mark();
                proof { Self::lemma_evolves_trans(&s0, &pre, &*self); Self::lemma_evolves_trans(&s_f, &pre, &*self); }
                if deconstructs {
                    let ghost pre = *self;
                    self.build_local(*local);
                    proof { Self::lemma_evolves_trans(&s0, &pre, &*self); Self::lemma_evolves_trans(&s_f, &pre, &*self); }
                    let ghost pre = *self;
                    self.build_deconstruct(pat, 0);
                    proof { Self::lemma_evolves_trans(&s0, &pre, &*self); Self::lemma_evolves_trans(&s_f, &pre, &*self); }
                }
                proof {
                    lemma_sim_decision_keeps(**failure, s_f.plan());
                }
                let ghost s_n = *self;
                let ghost pre = *self;
                self.build_decision(success, success_markers, failure_markers);
                proof { Self::lemma_evolves_trans(&s0, &pre, &*self); Self::lemma_evolves_trans(&s_f, &pre, &*self); }
                let ghost s_e = *self;
                proof {
                    assert(failure_begin.0 != 0);
                    assert(s_f.markers@[failure_begin.0 as int].outgoing is None);
                    assert(s_e.markers@[failure_begin.0 as int].outgoing is None);
                }
                let ghost pre = *self;
                self.wire_source(mode, failure_begin, success_begin);
                proof {
                    Self::lemma_evolves_wired(&s0, &pre, &*self, failure_begin);
                    // the markers of the first leaves stay free through the second tree
                    assert forall|i: int| old(success_markers)@.len() <= i < success_markers@.len() implies
                        self.fresh(#[trigger] success_markers@[i], s0.markers@.len()) by {
                        if i < succ1.len() {
                            assert(success_markers@[i] == succ1[i]);
                            assert(s_m.fresh(succ1[i], s_f.markers@.len()));
                        }
                    }
                    assert forall|i: int| old(failure_markers)@.len() <= i < failure_markers@.len() implies
                        self.fresh(#[trigger] failure_markers@[i], s0.markers@.len()) by {
                        if i < fail1.len() {
                            assert(failure_markers@[i] == fail1[i]);
                            assert(s_m.fresh(fail1[i], s_f.markers@.len()));
                        }
                    }
                    assert forall|i: int, j: int| old(success_markers)@.len() <= i < j < success_markers@.len() implies
                        success_markers@[i] != success_markers@[j] by {
                        if j < succ1.len() {
                            assert(success_markers@[i] == succ1[i]);
                            assert(success_markers@[j] == succ1[j]);
                        } else if i < succ1.len() {
                            assert(success_markers@[i] == succ1[i]);
                            assert(s_m.fresh(succ1[i], s_f.markers@.len()));
                            assert(self.fresh(success_markers@[j], s0.markers@.len()));
                        }
                    }
                    assert forall|i: int, j: int| old(failure_markers)@.len() <= i < j < failure_markers@.len() implies
                        failure_markers@[i] != failure_markers@[j] by {
                        if j < fail1.len() {
                            assert(failure_markers@[i] == fail1[i]);
                            assert(failure_markers@[j] == fail1[j]);
                        } else if i < fail1.len() {
                            assert(failure_markers@[i] == fail1[i]);
                            assert(s_m.fresh(fail1[i], s_f.markers@.len()));
                        }
                    }
                    assert forall|i: int, j: int| old(success_markers)@.len() <= i < success_markers@.len()
                        && old(failure_markers)@.len() <= j < failure_markers@.len() implies
                        success_markers@[i] != failure_markers@[j] by {
                        if i < succ1.len() && j < fail1.len() {
                            assert(success_markers@[i] == succ1[i]);
                            assert(failure_markers@[j] == fail1[j]);
                        } else if i < succ1.len() {
                            assert(success_markers@[i] == succ1[i]);
                            assert(s_m.fresh(succ1[i], s_f.markers@.len()));
                        } else if j < fail1.len() {
                            assert(failure_markers@[j] == fail1[j]);
                            assert(s_m.fresh(fail1[j], s_f.markers@.len()));
                        }
                    }
                }
            },
            _ => {},
        }
    }

    /// Whether, while it stays under 4 GiB, the code is made of the whole
    /// opcodes `ops`, every place that waits for a function's position
    /// follows one that takes a position, and every position held, in the
    /// code or as a function's known position, is a boundary of `ops`.
    spec fn code_ok(&self, ops: Seq<Opcode>) -> bool {
        self.cursor@.len() < 0x1_0000_0000 ==> {
            &&& self.cursor@ == encode_ops(ops)
            &&& waits_are_slots(self.function_positions@, ops)
            &&& targets_ok(ops)
            &&& patched_at_boundaries(self.function_positions@, ops)
        }
    }

    /// Whether every place that waits for a function's position lies within
    /// the code written so far.
    spec fn positions_ok(&self) -> bool {
        waits_within(self.function_positions@, self.cursor@.len())
    }

    /// Overwrites the four bytes at `at` with `value`, least significant first.
    fn patch_u32(&mut self, at: u32, value: u32)
        requires
            at + 4 <= old(self).cursor@.len(),
        ensures
            final(self).cursor@ == old(self).cursor@.subrange(0, at as int) + le_bytes(value as nat, 4)
                + old(self).cursor@.subrange(at + 4, old(self).cursor@.len() as int),
            final(self).cursor@.len() == old(self).cursor@.len(),
            final(self).function_positions@ == old(self).function_positions@,
            final(self).function_table@ == old(self).function_table@,
            final(self).constants@ == old(self).constants@,
            final(self).markers@ == old(self).markers@,
            final(self).opcodes@ == old(self).opcodes@,
            final(self).labels@ == old(self).labels@,
            final(self).frame_depth == old(self).frame_depth,
            final(self).current == old(self).current,
            final(self).zero == old(self).zero,
            final(self).owner == old(self).owner,
    {
        let bytes = le_u32_bytes(value);
        proof {
            lemma_le_bytes_len(value as nat, 4);
        }
        let at = at as usize;
        let len = self.cursor.len();
        let ghost before = self.cursor@;
        let mut k: usize = 0;
        while k < 4
            invariant
                0 <= k <= 4,
                len == before.len(),
                bytes@.len() == 4,
                at + 4 <= before.len(),
                self.cursor@.len() == before.len(),
                forall|j: int| 0 <= j < before.len() ==> #[trigger] self.cursor@[j] ==
                    if at <= j < at + k { bytes@[j - at] } else { before[j] },
                self.function_positions@ == old(self).function_positions@,
                self.function_table@ == old(self).function_table@,
                self.constants@ == old(self).constants@,
                self.markers@ == old(self).markers@,
                self.opcodes@ == old(self).opcodes@,
                self.labels@ == old(self).labels@,
                self.frame_depth == old(self).frame_depth,
                self.current == old(self).current,
                self.zero == old(self).zero,
                self.owner == old(self).owner,
            decreases 4 - k,
        {
            self.cursor.set(at + k, bytes[k]);
            k = k + 1;
        }
        proof {
            assert(self.cursor@ =~= before.subrange(0, at as int) + le_bytes(value as nat, 4)
                + before.subrange(at + 4, before.len() as int));
        }
    }

    /// Appends the four bytes of `value`, least significant first.
    fn push_u32(&mut self, value: u32)
        ensures
            final(self).cursor@ == old(self).cursor@ + le_bytes(value as nat, 4),
            final(self).cursor@.len() == old(self).cursor@.len() + 4,
            final(self).function_positions@ == old(self).function_positions@,
            final(self).function_table@ == old(self).function_table@,
            final(self).constants@ == old(self).constants@,
            final(self).markers@ == old(self).markers@,
            final(self).opcodes@ == old(self).opcodes@,
            final(self).labels@ == old(self).labels@,
            final(self).frame_depth == old(self).frame_depth,
    {
        let bytes = le_u32_bytes(value);
        proof {
            lemma_le_bytes_len(value as nat, 4);
        }
        append_bytes(&mut self.cursor, &bytes);
    }

    /// Patching and appending keep every waiting place within the code.
    proof fn lemma_positions_grow(a: &Self, b: &Self)
        requires
            a.positions_ok(),
            b.function_positions@ == a.function_positions@,
            b.cursor@.len() >= a.cursor@.len(),
        ensures
            b.positions_ok(),
    {
        lemma_waits_grow(a.function_positions@, a.cursor@.len(), b.cursor@.len());
    }

    /// Writes the code of the function whose instructions were collected:
    /// each instruction, then the jump that starts at its marker, if any.
    /// Where a jump's target is not placed yet, four zero bytes wait for its
    /// position; once the target marker is reached, every place that waits
    /// for it is filled in. A function whose position is not known yet is
    /// loaded the same way. While the code stays under 4 GiB, it is made of
    /// whole opcodes, `ops` before and the returned ones after.
    #[verifier::spinoff_prover]
    #[verifier::rlimit(60)]
    fn emit_bytecode(&mut self, Ghost(ops): Ghost<Seq<Opcode>>) -> (r: Ghost<Seq<Opcode>>)
        requires
            old(self).inv(),
            old(self).positions_ok(),
            old(self).code_ok(ops),
        ensures
            final(self).positions_ok(),
            final(self).code_ok(r@),
            final(self).cursor@.len() >= old(self).cursor@.len(),
            final(self).function_positions@.len() == old(self).function_positions@.len(),
            final(self).function_table@ == old(self).function_table@,
            final(self).constants@ == old(self).constants@,
            final(self).labels@ == old(self).labels@,
            final(self).frame_depth == old(self).frame_depth,
            (exists|x: int| 0 <= x < old(self).opcodes@.len() && (#[trigger] old(self).opcodes@[x]).0 is Op)
                ==> final(self).cursor@.len() > old(self).cursor@.len(),
            r@.len() >= ops.len(),
            keeps_shape(ops, r@.take(ops.len() as int)),
            unmarked(old(self).opcodes@) ==> r@.len() == ops.len() + old(self).opcodes@.len()
                && r@.take(ops.len() as int) == ops && written_as(r@.skip(ops.len() as int), old(self).opcodes@),
    {
        let ghost a = *old(self);
        let ghost mut cur = ops;
        let n = self.markers.len();
        let mut placeholders: Vec<Placeholder> = Vec::new();
        let mut j: usize = 0;
        while j < n
            invariant
                0 <= j <= n,
                n == self.markers@.len(),
                placeholders@.len() == j,
                forall|x: int| 0 <= x < j ==> (#[trigger] placeholders@[x] matches Placeholder::Unpatched(ps) && ps@.len() == 0),
            decreases n - j,
        {
            placeholders.push(Placeholder::Unpatched(Vec::new()));
            j = j + 1;
        }
        placeholders.set(0, Placeholder::Patched(0));
        proof {
            lemma_boundary_ends(cur);
            assert forall|f: int| 0 <= f < placeholders@.len() implies
                ((#[trigger] placeholders@[f]) matches Placeholder::Patched(p) ==> is_boundary(cur, p as nat)) by {
                if f != 0 {
                    assert(placeholders@[f] matches Placeholder::Unpatched(ps) && ps@.len() == 0);
                }
            }
            assert(waits_are_slots(placeholders@, cur)) by {
                assert forall|f: int| 0 <= f < placeholders@.len() implies
                    ((#[trigger] placeholders@[f]) matches Placeholder::Unpatched(w) ==> w@.len() == 0) by {
                    if f != 0 {
                        assert(placeholders@[f] matches Placeholder::Unpatched(ps) && ps@.len() == 0);
                    }
                }
            }
        }
        let mut k: usize = 0;
        while k < self.opcodes.len()
            invariant
                0 <= k <= self.opcodes@.len(),
                a.inv(),
                self.opcodes@ == a.opcodes@,
                self.markers@ == a.markers@,
                self.function_positions@.len() == a.function_positions@.len(),
                self.function_table@ == a.function_table@,
                self.constants@ == a.constants@,
                self.labels@ == a.labels@,
                self.frame_depth == a.frame_depth,
                self.cursor@.len() >= a.cursor@.len(),
                (exists|x: int| 0 <= x < k && (#[trigger] a.opcodes@[x]).0 is Op) ==> self.cursor@.len() > a.cursor@.len(),
                self.positions_ok(),
                self.code_ok(cur),
                self.cursor@.len() < 0x1_0000_0000 ==> waits_are_slots(placeholders@, cur),
                self.cursor@.len() < 0x1_0000_0000 ==> patched_at_boundaries(placeholders@, cur),
                placeholders@.len() == self.markers@.len(),
                waits_within(placeholders@, self.cursor@.len()),
                unmarked(a.opcodes@) ==> cur.len() == ops.len() + k && cur.take(ops.len() as int) == ops
                    && written_as(cur.skip(ops.len() as int), a.opcodes@.take(k as int)),
                cur.len() >= ops.len(),
                keeps_shape(ops, cur.take(ops.len() as int)),
            decreases self.opcodes@.len() - k,
        {
            let ghost before = *self;
            let ghost ph0 = placeholders@;
            let ghost ops0 = cur;
            match &self.opcodes[k].0 {
                PseudoOp::Noop => {},
                PseudoOp::Op(op) => {
                    let op = *op;
                    write_opcode(&mut self.cursor, &op);
                    proof {
                        Self::lemma_positions_grow(&before, &*self);
                        lemma_shape_push(ops, cur, op);
                        cur = cur.push(op);
                        if self.cursor@.len() < 0x1_0000_0000 {
                            assert(cur.drop_last() =~= ops0);
                            lemma_slots_push(self.function_positions@, ops0, op);
                            lemma_slots_push(placeholders@, ops0, op);
                            assert(pseudo_ok(a.opcodes@[k as int].0, a.function_positions@.len()));
                            lemma_targets_push(ops0, op);
                            lemma_patched_push(self.function_positions@, ops0, op);
                            lemma_patched_push(placeholders@, ops0, op);
                        }
                    }
                },
                PseudoOp::LoadFun(id) => {
                    let id = *id;
                    self.cursor.push(opcode::LOAD_FUN);
                    let pos = self.pos();
                    let ghost fp0 = self.function_positions@;
                    let ghost l0 = self.cursor@.len();
                    let mut slot = Placeholder::Patched(0);
                    self.function_positions.set_and_swap(id.0, &mut slot);
                    match slot {
                        Placeholder::Unpatched(mut unpatched) => {
                            let ghost w0 = unpatched@;
                            proof {
                                assert(fp0[id.0 as int] == Placeholder::Unpatched(unpatched));
                                assert forall|i: int| 0 <= i < w0.len() implies #[trigger] w0[i] + 4 <= l0 by {
                                    assert(fp0[id.0 as int] matches Placeholder::Unpatched(w) && w@[i] == w0[i]);
                                }
                            }
                            unpatched.push(pos);
                            self.push_u32(0);
                            proof {
                                assert forall|i: int| 0 <= i < unpatched@.len() implies #[trigger] unpatched@[i] + 4 <= self.cursor@.len() by {
                                    if i < w0.len() {
                                        assert(unpatched@[i] == w0[i]);
                                    }
                                }
                                lemma_waits_grow(fp0, l0, self.cursor@.len());
                                lemma_waits_update(fp0, id.0 as int, Placeholder::Unpatched(unpatched), self.cursor@.len());
                                let op = Opcode::load_fun(0);
                                lemma_shape_push(ops, cur, op);
                                cur = cur.push(op);
                                if self.cursor@.len() < 0x1_0000_0000 {
                                    Self::lemma_loaded(before.cursor@, ops0, op, opcode::LOAD_FUN, 0, self.cursor@);
                                    lemma_slots_push(fp0, ops0, op);
                                    lemma_slots_push(placeholders@, ops0, op);
                                    lemma_boundary_ends(ops0);
                                    lemma_targets_push(ops0, op);
                                    lemma_patched_push(fp0, ops0, op);
                                    lemma_patched_push(placeholders@, ops0, op);
                                    lemma_patched_update(fp0, cur, id.0 as int, Placeholder::Unpatched(unpatched));
                                    assert(slot_of(cur, ops0.len() as int, pos as nat));
                                    assert forall|i: int| #![trigger unpatched@[i]] 0 <= i < unpatched@.len() implies
                                        is_slot(cur, unpatched@[i] as nat) by {
                                        if i < w0.len() {
                                            assert(unpatched@[i] == w0[i]);
                                            assert(fp0[id.0 as int] matches Placeholder::Unpatched(w) && w@[i] == w0[i]);
                                        } else {
                                            assert(unpatched@[i] == pos);
                                            assert(slot_of(cur, ops0.len() as int, unpatched@[i] as nat));
                                        }
                                    }
                                    lemma_slots_update(fp0, cur, id.0 as int, Placeholder::Unpatched(unpatched));
                                }
                            }
                            let mut back = Placeholder::Unpatched(unpatched);
                            self.function_positions.set_and_swap(id.0, &mut back);
                            proof {
                                assert(self.function_positions@ =~= fp0.update(id.0 as int, Placeholder::Unpatched(unpatched)));
                            }
                        },
                        Placeholder::Patched(known) => {
                            self.push_u32(known);
                            let mut back = Placeholder::Patched(known);
                            self.function_positions.set_and_swap(id.0, &mut back);
                            proof {
                                assert(self.function_positions@ =~= fp0);
                                lemma_waits_grow(fp0, l0, self.cursor@.len());
                                let op = Opcode::load_fun(known);
                                lemma_shape_push(ops, cur, op);
                                cur = cur.push(op);
                                if self.cursor@.len() < 0x1_0000_0000 {
                                    Self::lemma_loaded(before.cursor@, ops0, op, opcode::LOAD_FUN, known, self.cursor@);
                                    lemma_slots_push(fp0, ops0, op);
                                    lemma_slots_push(placeholders@, ops0, op);
                                    assert(fp0[id.0 as int] == Placeholder::Patched(known));
                                    assert(is_boundary(ops0, known as nat));
                                    lemma_targets_push(ops0, op);
                                    lemma_patched_push(fp0, ops0, op);
                                    lemma_patched_push(placeholders@, ops0, op);
                                }
                            }
                        },
                    }
                },
            }
            let ghost after_op = self.cursor@.len();
            let ghost ops1 = cur;
            proof {
                if a.opcodes@[k as int].0 is Op {
                    assert(after_op > before.cursor@.len());
                }
                lemma_waits_grow(ph0, before.cursor@.len(), after_op);
            }
            if let Some(marker) = self.opcodes[k].1 {
                proof {
                    assert(marker.0 < self.markers@.len());
                }
                if let Some((dest, mode)) = self.markers[marker.0].outgoing {
                    let tag = match mode {
                        JumpMode::Always => opcode::JUMP,
                        JumpMode::IfTrue => opcode::JUMP_IF,
                        JumpMode::IfFalse => opcode::JUMP_IF_NOT,
                        JumpMode::Eq => opcode::JUMP_EQ,
                    };
                    let ghost mid = *self;
                    let ghost c_op = self.cursor@;
                    self.cursor.push(tag);
                    proof { Self::lemma_positions_grow(&mid, &*self); }
                    let site = self.pos();
                    proof {
                        assert(dest.0 < self.markers@.len());
                    }
                    let ghost pp0 = placeholders@;
                    let ghost l0 = self.cursor@.len();
                    let mut slot = Placeholder::Patched(0);
                    placeholders.set_and_swap(dest.0, &mut slot);
                    let ghost mid = *self;
                    match slot {
                        Placeholder::Unpatched(mut unpatched) => {
                            let ghost w0 = unpatched@;
                            proof {
                                assert(pp0[dest.0 as int] == Placeholder::Unpatched(unpatched));
                                assert forall|i: int| 0 <= i < w0.len() implies #[trigger] w0[i] + 4 <= l0 by {
                                    assert(pp0[dest.0 as int] matches Placeholder::Unpatched(w) && w@[i] == w0[i]);
                                }
                            }
                            unpatched.push(site);
                            self.push_u32(0);
                            proof {
                                assert forall|i: int| 0 <= i < unpatched@.len() implies #[trigger] unpatched@[i] + 4 <= self.cursor@.len() by {
                                    if i < w0.len() {
                                        assert(unpatched@[i] == w0[i]);
                                    }
                                }
                                lemma_waits_grow(pp0, l0, self.cursor@.len());
                                lemma_waits_update(pp0, dest.0 as int, Placeholder::Unpatched(unpatched), self.cursor@.len());
                                let op = jump_op(mode, 0);
                                lemma_shape_push(ops, cur, op);
                                cur = cur.push(op);
                                if self.cursor@.len() < 0x1_0000_0000 {
                                    Self::lemma_loaded(c_op, ops1, op, tag, 0, self.cursor@);
                                    lemma_slots_push(self.function_positions@, ops1, op);
                                    lemma_slots_push(pp0, ops1, op);
                                    lemma_boundary_ends(ops1);
                                    lemma_targets_push(ops1, op);
                                    lemma_patched_push(self.function_positions@, ops1, op);
                                    lemma_patched_push(pp0, ops1, op);
                                    lemma_patched_update(pp0, cur, dest.0 as int, Placeholder::Unpatched(unpatched));
                                    assert(slot_of(cur, ops1.len() as int, site as nat));
                                    assert forall|i: int| #![trigger unpatched@[i]] 0 <= i < unpatched@.len() implies
                                        is_slot(cur, unpatched@[i] as nat) by {
                                        if i < w0.len() {
                                            assert(unpatched@[i] == w0[i]);
                                            assert(pp0[dest.0 as int] matches Placeholder::Unpatched(w) && w@[i] == w0[i]);
                                        } else {
                                            assert(unpatched@[i] == site);
                                            assert(slot_of(cur, ops1.len() as int, unpatched@[i] as nat));
                                        }
                                    }
                                    lemma_slots_update(pp0, cur, dest.0 as int, Placeholder::Unpatched(unpatched));
                                }
                            }
                            let mut back = Placeholder::Unpatched(unpatched);
                            placeholders.set_and_swap(dest.0, &mut back);
                            proof {
                                assert(placeholders@ =~= pp0.update(dest.0 as int, Placeholder::Unpatched(unpatched)));
                            }
                        },
                        Placeholder::Patched(dest_pos) => {
                            self.push_u32(dest_pos);
                            let mut back = Placeholder::Patched(dest_pos);
                            placeholders.set_and_swap(dest.0, &mut back);
                            proof {
                                assert(placeholders@ =~= pp0);
                                lemma_waits_grow(pp0, l0, self.cursor@.len());
                                let op = jump_op(mode, dest_pos);
                                lemma_shape_push(ops, cur, op);
                                cur = cur.push(op);
                                if self.cursor@.len() < 0x1_0000_0000 {
                                    Self::lemma_loaded(c_op, ops1, op, tag, dest_pos, self.cursor@);
                                    lemma_slots_push(self.function_positions@, ops1, op);
                                    lemma_slots_push(pp0, ops1, op);
                                    assert(pp0[dest.0 as int] == Placeholder::Patched(dest_pos));
                                    assert(is_boundary(ops1, dest_pos as nat));
                                    lemma_targets_push(ops1, op);
                                    lemma_patched_push(self.function_positions@, ops1, op);
                                    lemma_patched_push(pp0, ops1, op);
                                }
                            }
                        },
                    }
                    proof { Self::lemma_positions_grow(&mid, &*self); }
                }
                proof {
                    lemma_waits_grow(placeholders@, if placeholders@ == ph0 { after_op } else { self.cursor@.len() }, self.cursor@.len());
                }
                let marker_pos = self.pos();
                let ghost pm0 = placeholders@;
                let mut slot = Placeholder::Patched(marker_pos);
                placeholders.set_and_swap(marker.0, &mut slot);
                proof {
                    lemma_waits_update(pm0, marker.0 as int, Placeholder::Patched(marker_pos), self.cursor@.len());
                    assert(placeholders@ =~= pm0.update(marker.0 as int, Placeholder::Patched(marker_pos)));
                    if self.cursor@.len() < 0x1_0000_0000 {
                        lemma_slots_update(pm0, cur, marker.0 as int, Placeholder::Patched(marker_pos));
                        lemma_boundary_ends(cur);
                        lemma_patched_update(pm0, cur, marker.0 as int, Placeholder::Patched(marker_pos));
                    }
                }
                if let Placeholder::Unpatched(unpatched) = slot {
                    proof {
                        assert(pm0[marker.0 as int] == Placeholder::Unpatched(unpatched));
                        if self.cursor@.len() < 0x1_0000_0000 {
                            assert forall|x: int| #![trigger unpatched@[x]] 0 <= x < unpatched@.len() implies
                                is_slot(cur, unpatched@[x] as nat) by {
                                assert(pm0[marker.0 as int] matches Placeholder::Unpatched(w) && w@[x] == unpatched@[x]);
                            }
                        }
                    }
                    let mut i: usize = 0;
                    while i < unpatched.len()
                        invariant
                            0 <= i <= unpatched@.len(),
                            forall|x: int| 0 <= x < unpatched@.len() ==> #[trigger] unpatched@[x] + 4 <= self.cursor@.len(),
                            self.cursor@.len() < 0x1_0000_0000 ==> forall|x: int| #![trigger unpatched@[x]] 0 <= x < unpatched@.len() ==>
                                is_slot(cur, unpatched@[x] as nat),
                            self.positions_ok(),
                            self.code_ok(cur),
                            self.cursor@.len() < 0x1_0000_0000 ==> waits_are_slots(placeholders@, cur),
                            self.cursor@.len() < 0x1_0000_0000 ==> patched_at_boundaries(placeholders@, cur),
                            self.cursor@.len() < 0x1_0000_0000 ==> is_boundary(cur, marker_pos as nat),
                            self.opcodes@ == a.opcodes@,
                            self.markers@ == a.markers@,
                            self.function_positions@.len() == a.function_positions@.len(),
                            self.function_table@ == a.function_table@,
                            self.constants@ == a.constants@,
                            self.labels@ == a.labels@,
                            self.frame_depth == a.frame_depth,
                            self.cursor@.len() >= after_op,
                            after_op >= a.cursor@.len(),
                            k < self.opcodes@.len(),
                            waits_within(placeholders@, self.cursor@.len()),
                            placeholders@.len() == self.markers@.len(),
                            cur.len() >= ops.len(),
                            keeps_shape(ops, cur.take(ops.len() as int)),
                        decreases unpatched@.len() - i,
                    {
                        let ghost mid = *self;
                        let ghost ops2 = cur;
                        self.patch_u32(unpatched[i], marker_pos);
                        proof {
                            Self::lemma_positions_grow(&mid, &*self);
                            if self.cursor@.len() < 0x1_0000_0000 {
                                let jj = choose|jj: int| #[trigger] slot_of(ops2, jj, unpatched@[i as int] as nat);
                                lemma_patch_ops(ops2, jj, marker_pos);
                                lemma_shape_patch(ops, ops2, jj, marker_pos);
                                cur = ops2.update(jj, with_target(ops2[jj], marker_pos));
                                lemma_slots_patch(self.function_positions@, ops2, jj, marker_pos);
                                lemma_slots_patch(placeholders@, ops2, jj, marker_pos);
                                lemma_targets_patch(ops2, jj, marker_pos);
                                lemma_patched_patch(self.function_positions@, ops2, jj, marker_pos);
                                lemma_patched_patch(placeholders@, ops2, jj, marker_pos);
                                assert forall|x: int| #![trigger unpatched@[x]] 0 <= x < unpatched@.len() implies
                                    is_slot(cur, unpatched@[x] as nat) by {
                                    let jx = choose|jx: int| #[trigger] slot_of(ops2, jx, unpatched@[x] as nat);
                                    assert(slot_of(cur, jx, unpatched@[x] as nat));
                                }
                            }
                        }
                        i = i + 1;
                    }
                }
            }
            proof {
                assert(self.cursor@.len() >= after_op);
                if exists|x: int| 0 <= x < k + 1 && (#[trigger] a.opcodes@[x]).0 is Op {
                    let x = choose|x: int| 0 <= x < k + 1 && (#[trigger] a.opcodes@[x]).0 is Op;
                    if x < k {
                        assert(before.cursor@.len() > a.cursor@.len());
                    }
                }
                if unmarked(a.opcodes@) {
                    assert(a.opcodes@[k as int].1 is None);
                    assert(cur == ops0.push(cur.last()));
                    assert(cur.take(ops.len() as int) =~= ops0.take(ops.len() as int));
                    assert(a.opcodes@.take(k + 1).drop_last() =~= a.opcodes@.take(k as int));
                    assert(cur.skip(ops.len() as int) =~= ops0.skip(ops.len() as int).push(cur.last()));
                    assert(fits(cur.last(), a.opcodes@[k as int].0));
                }
            }
            k = k + 1;
        }
        proof {
            if unmarked(a.opcodes@) {
                assert(a.opcodes@.take(k as int) =~= a.opcodes@);
            }
        }
        Ghost(cur)
    }

    /// Writing a tag byte and then a four-byte operand writes an opcode that
    /// takes a position.
    proof fn lemma_loaded(c0: Seq<u8>, ops: Seq<Opcode>, op: Opcode, tag: u8, v: u32, c1: Seq<u8>)
        requires
            c0 == encode_ops(ops),
            patchable(op),
            opcode_tag(op) == tag,
            opcode_operand(op).1 == v,
            c1 == c0.push(tag) + le_bytes(v as nat, 4),
        ensures
            c1 == encode_ops(ops.push(op)),
            op_offset(ops.push(op), ops.len() as int) + 1 == c0.len() + 1,
    {
        lemma_encode_opcode_len(op);
        assert(ops.push(op).drop_last() =~= ops);
        assert(c1 =~= encode_ops(ops.push(op)));
        lemma_op_offset_push(ops, op, ops.len() as int);
    }

    /// What holds between two functions: the pooled constants can be
    /// written, every place waiting for a function's position lies within
    /// the code, and the function table lists at most `built` positions.
    spec fn outer_ok(&self, built: nat) -> bool {
        &&& self.constants@.len() <= 0x10000
        &&& forall|i: int| 0 <= i < self.constants@.len() ==> writable(#[trigger] self.constants@[i].model())
        &&& self.positions_ok()
        &&& self.function_table@.len() <= built
    }

    /// Builds function `function` and writes its code: the places that
    /// waited for its position are filled in, its arguments are taken
    /// apart below the captured locals, its body is built and returned from.
    #[verifier::spinoff_prover]
    fn build_function(&mut self, function: &Function, Ghost(built): Ghost<nat>, Ghost(ops): Ghost<Seq<Opcode>>) -> (r: Ghost<Seq<Opcode>>)
        requires
            old(self).outer_ok(built),
            old(self).code_ok(ops),
            sim_function(*function, old(self).plan()) is Some,
        ensures
            final(self).outer_ok(built + 1),
            final(self).code_ok(r@),
            final(self).plan().labels == sim_function(*function, old(self).plan())->0.labels,
            final(self).plan().depth == sim_function(*function, old(self).plan())->0.depth,
            final(self).plan().consts == sim_function(*function, old(self).plan())->0.consts,
            final(self).plan().funs == sim_function(*function, old(self).plan())->0.funs,
            final(self).function_positions@.len() == old(self).function_positions@.len(),
            final(self).cursor@.len() > old(self).cursor@.len(),
            final(self).function_table@ == old(self).function_table@.insert(old(self).cursor@.len() as u32, function.name),
            keeps_shape(ops, r@.take(ops.len() as int)),
            r@.len() >= ops.len(),
            function_ops(*function, old(self).plan()) matches Some(fo) ==>
                r@.len() == ops.len() + fo.len() && written_as(r@.skip(ops.len() as int), fo),
    {
        broadcast use vstd::std_specs::hash::group_hash_axioms;

        let ghost c = old(self).plan();
        // reset state
        self.opcodes.clear();
        self.markers.clear();
        self.markers.push(MarkerInfo { incoming: Vec::new(), outgoing: None });
        proof {
            self.current = Ghost(Set::empty());
            self.zero = Ghost(Zero::Free);
            self.owner = Ghost(Map::empty());
            assert(self.plan() == start_function(c));
        }

        // patch placeholders to this function, and register function position
        let fun_pos = self.pos();
        let ghost fp0 = self.function_positions@;
        let mut slot = Placeholder::Patched(fun_pos);
        self.function_positions.set_and_swap(function.id.0, &mut slot);
        let ghost mut cur = ops;
        proof {
            lemma_waits_update(fp0, function.id.0 as int, Placeholder::Patched(fun_pos), self.cursor@.len());
            assert(self.function_positions@ =~= fp0.update(function.id.0 as int, Placeholder::Patched(fun_pos)));
            if self.cursor@.len() < 0x1_0000_0000 {
                lemma_slots_update(fp0, ops, function.id.0 as int, Placeholder::Patched(fun_pos));
                lemma_boundary_ends(ops);
                lemma_patched_update(fp0, ops, function.id.0 as int, Placeholder::Patched(fun_pos));
            }
        }
        if let Placeholder::Unpatched(unpatched) = slot {
            proof {
                assert(fp0[function.id.0 as int] == Placeholder::Unpatched(unpatched));
                assert forall|x: int| 0 <= x < unpatched@.len() implies #[trigger] unpatched@[x] + 4 <= self.cursor@.len() by {
                    assert(fp0[function.id.0 as int] matches Placeholder::Unpatched(w) && w@[x] == unpatched@[x]);
                }
                if self.cursor@.len() < 0x1_0000_0000 {
                    assert forall|x: int| #![trigger unpatched@[x]] 0 <= x < unpatched@.len() implies
                        is_slot(cur, unpatched@[x] as nat) by {
                        assert(fp0[function.id.0 as int] matches Placeholder::Unpatched(w) && w@[x] == unpatched@[x]);
                    }
                }
            }
            let mut i: usize = 0;
            while i < unpatched.len()
                invariant
                    0 <= i <= unpatched@.len(),
                    forall|x: int| 0 <= x < unpatched@.len() ==> #[trigger] unpatched@[x] + 4 <= self.cursor@.len(),
                    self.cursor@.len() < 0x1_0000_0000 ==> forall|x: int| #![trigger unpatched@[x]] 0 <= x < unpatched@.len() ==>
                        is_slot(cur, unpatched@[x] as nat),
                    self.code_ok(cur),
                    self.cursor@.len() < 0x1_0000_0000 ==> is_boundary(cur, fun_pos as nat),
                    self.inv(),
                    self.positions_ok(),
                    self.plan() == start_function(c),
                    self.cursor@.len() == old(self).cursor@.len(),
                    self.function_positions@.len() == old(self).function_positions@.len(),
                    self.function_table@ == old(self).function_table@,
                    self.constants@ == old(self).constants@,
                    keeps_shape(ops, cur),
                    self.opcodes@.len() == 0,
                decreases unpatched@.len() - i,
            {
                let ghost mid = *self;
                let ghost ops2 = cur;
                self.patch_u32(unpatched[i], fun_pos);
                proof {
                    Self::lemma_positions_grow(&mid, &*self);
                    Self::lemma_inv_frame(&mid, &*self);
                    assert(self.plan() == mid.plan());
                    if self.cursor@.len() < 0x1_0000_0000 {
                        let jj = choose|jj: int| #[trigger] slot_of(ops2, jj, unpatched@[i as int] as nat);
                        lemma_patch_ops(ops2, jj, fun_pos);
                        cur = ops2.update(jj, with_target(ops2[jj], fun_pos));
                        assert(with_target(cur[jj], 0) == with_target(ops2[jj], 0));
                        assert(keeps_shape(ops, cur));
                        lemma_slots_patch(self.function_positions@, ops2, jj, fun_pos);
                        lemma_targets_patch(ops2, jj, fun_pos);
                        lemma_patched_patch(self.function_positions@, ops2, jj, fun_pos);
                        assert forall|x: int| #![trigger unpatched@[x]] 0 <= x < unpatched@.len() implies
                            is_slot(cur, unpatched@[x] as nat) by {
                            let jx = choose|jx: int| #[trigger] slot_of(ops2, jx, unpatched@[x] as nat);
                            assert(slot_of(cur, jx, unpatched@[x] as nat));
                        }
                    }
                }
                i = i + 1;
            }
        }

        // deconstruct arguments, make sure to skip over captured locals
        let ghost c0 = self.plan();
        let ghost s0 = *self;
        let size = function.args.len() as u16;
        let mut i: usize = 0;
        while i < function.args.len()
            invariant
                0 <= i <= function.args@.len(),
                size as nat == function.args@.len(),
                args_ok(function.args@, function.captured_count),
                self.inv(),
                s0.evolves(&*self),
                self.positions_ok(),
                self.plan() == if (exists|j: int| 0 <= j < i && decon_writes(#[trigger] function.args@[j])) { wrote(c0) } else { c0 },
                self.function_table@ == old(self).function_table@,
                self.function_positions@.len() == old(self).function_positions@.len(),
                self.cursor@.len() == old(self).cursor@.len(),
                self.code_ok(cur),
                keeps_shape(ops, cur),
                self.opcodes@ == args_ops(function.args@, function.captured_count, i as nat),
            decreases function.args@.len() - i,
        {
            proof {
                let arg = function.args@[i as int];
                assert(arg_offset(function.args@.len(), i as int, function.captured_count) <= 0xffff);
            }
            let captured = #[verifier::truncate] (function.captured_count as u16);
            let offset = size - 1 - i as u16 + captured;
            let ghost pre = *self;
            self.build_deconstruct(&function.args[i], offset);
            proof {
                assert(offset as int == arg_offset(function.args@.len(), i as int, function.captured_count));
                assert(args_ops(function.args@, function.captured_count, (i + 1) as nat)
                    == args_ops(function.args@, function.captured_count, i as nat)
                        + plain_ops(decon_ops(function.args@[i as int], offset as nat)));
                Self::lemma_evolves_trans(&s0, &pre, &*self);
                Self::lemma_positions_grow(&pre, &*self);
                if decon_writes(function.args@[i as int]) {
                    assert(exists|j: int| 0 <= j < i + 1 && decon_writes(#[trigger] function.args@[j]));
                }
            }
            i = i + 1;
        }

        // generate expression and return
        let ghost pre = *self;
        self.build_expression(&function.expr);
        proof { Self::lemma_positions_grow(&pre, &*self); }
        let ghost pre = *self;
        self.write_opcode(Opcode::ret);
        proof { Self::lemma_positions_grow(&pre, &*self); }

        let ghost table0 = self.function_table@;
        let ghost before_insert = *self;
        self.function_table.insert(fun_pos, function.name.clone());
        proof {
            Self::lemma_inv_frame(&before_insert, &*self);
            assert(table0.dom().finite());
            assert(self.function_table@.dom() == table0.dom().insert(fun_pos));
        }
        let ghost before_emit = *self;
        proof {
            let x = before_emit.opcodes@.len() - 1;
            assert((before_emit.opcodes@[x]).0 is Op);
        }
        proof {
            let c0 = start_function(old(self).plan());
            let c1 = if args_write(function.args@) { wrote(c0) } else { c0 };
            lemma_straight_unmarked(function.expr, c1);
            if function_ops(*function, old(self).plan()) is Some {
                let fo = function_ops(*function, old(self).plan())->0;
                let aops = args_ops(function.args@, function.captured_count, function.args@.len());
                let o = straight_ops(function.expr, c1)->0;
                assert(fo == aops + o + seq![op_at(Opcode::ret)]);
                assert(before_emit.opcodes@ =~= fo);
                assert forall|k: int| 0 <= k < fo.len() implies (#[trigger] fo[k]).1 is None && !(fo[k].0 is Noop) by {
                    if k < aops.len() {
                        lemma_args_ops_plain(function.args@, function.captured_count, function.args@.len(), k);
                        assert(fo[k] == aops[k]);
                    } else if k < aops.len() + o.len() {
                        assert(fo[k] == o[k - aops.len()]);
                    } else {
                        assert(fo[k] == op_at(Opcode::ret));
                    }
                }
            }
        }
        let r = self.emit_bytecode(Ghost(cur));
        proof {
            assert(self.plan().labels =~= before_emit.plan().labels);
            assert(r@.take(ops.len() as int) =~= r@.take(cur.len() as int));
        }
        r
    }

    /// A builder with nothing built yet.
    fn new() -> (b: Self)
        ensures
            b.constants@.len() == 0,
            b.function_table@.len() == 0,
            b.function_positions@.len() == 0,
            b.labels@ == Map::<usize, Label>::empty(),
            b.frame_depth == 0,
            b.cursor@.len() == 0,
    {
        Self {
            constants: Vec::new(),
            function_table: HashMap::new(),
            function_positions: Vec::new(),
            labels: HashMap::new(),
            frame_depth: 0,
            opcodes: Vec::new(),
            cursor: Vec::new(),
            markers: Vec::new(),
            current: Ghost(Set::empty()),
            zero: Ghost(Zero::Free),
            owner: Ghost(Map::empty()),
        }
    }

    /// Builds every function of `program`, in order.
    fn build_program(&mut self, program: &Program) -> (r: Ghost<Seq<Opcode>>)
        requires
            old(self).constants@.len() == 0,
            old(self).function_table@.len() == 0,
            old(self).labels@ == Map::<usize, Label>::empty(),
            old(self).frame_depth == 0,
            old(self).cursor@.len() == 0,
            sim_functions(program.functions@, start_program(program.functions@.len())) is Some,
        ensures
            final(self).outer_ok(program.functions@.len()),
            final(self).plan().consts == sim_functions(program.functions@, start_program(program.functions@.len()))->0.consts,
            final(self).cursor@.len() < 0x1_0000_0000 ==> names_listed(final(self).function_table@, program.functions@, final(self).cursor@.len()),
            final(self).code_ok(r@),
            final(self).cursor@.len() < 0x1_0000_0000 ==> exists|starts: Seq<nat>|
                function_starts(starts, program.functions@, table_text(final(self).function_table), final(self).cursor@.len()),
            program.functions@.len() == 0 ==> final(self).cursor@.len() == 0 && final(self).function_table@.len() == 0,
            exists|os: Seq<nat>| code_of_functions(r@, os, program.functions@)
                && (final(self).cursor@.len() < 0x1_0000_0000 ==> exists|starts: Seq<nat>|
                    function_starts(starts, program.functions@, table_text(final(self).function_table), final(self).cursor@.len())
                    && forall|j: int| 0 <= j < os.len() ==> op_offset(r@, #[trigger] os[j] as int) == starts[j]),
    {
        broadcast use vstd::std_specs::hash::group_hash_axioms;

        let n = program.functions.len();
        let mut positions: Vec<Placeholder> = Vec::new();
        let mut j: usize = 0;
        while j < n
            invariant
                0 <= j <= n,
                positions@.len() == j,
                forall|x: int| 0 <= x < j ==> (#[trigger] positions@[x] matches Placeholder::Unpatched(ps) && ps@.len() == 0),
            decreases n - j,
        {
            positions.push(Placeholder::Unpatched(Vec::new()));
            j = j + 1;
        }
        self.function_positions = positions;
        let ghost goal = sim_functions(program.functions@, start_program(n as nat))->0;
        let ghost mut cur = start_program(n as nat);
        let ghost mut ops = Seq::<Opcode>::empty();
        let ghost mut starts = Seq::<nat>::empty();
        let ghost mut os = Seq::<nat>::empty();
        proof {
            assert(self.cursor@ =~= encode_ops(ops));
            assert forall|f: int| 0 <= f < self.function_positions@.len() implies
                ((#[trigger] self.function_positions@[f]) matches Placeholder::Unpatched(w) ==> w@.len() == 0) by {
                assert(positions@[f] matches Placeholder::Unpatched(ps) && ps@.len() == 0);
            }
            assert(self.code_ok(ops));
            assert(self.plan().labels =~= Map::<usize, nat>::empty());
            assert(start_function(self.plan()) == start_function(cur));
            assert(program.functions@.subrange(0, n as int) =~= program.functions@);
        }
        let mut i: usize = 0;
        while i < n
            invariant
                0 <= i <= n,
                n == program.functions@.len(),
                self.outer_ok(i as nat),
                start_function(self.plan()) == start_function(cur),
                sim_functions(program.functions@.subrange(i as int, n as int), cur) == Some(goal),
                self.cursor@.len() < 0x1_0000_0000 ==> names_listed(self.function_table@, program.functions@.take(i as int), self.cursor@.len()),
                self.code_ok(ops),
                starts.len() == i,
                i > 0 ==> starts[0] == 0,
                i == 0 ==> self.cursor@.len() == 0 && self.function_table@.len() == 0,
                forall|a: int, b: int| 0 <= a < b < starts.len() ==> starts[a] < starts[b],
                forall|j: int| 0 <= j < starts.len() ==> starts[j] < self.cursor@.len(),
                self.cursor@.len() < 0x1_0000_0000 ==> forall|j: int| #![trigger starts[j]] 0 <= j < starts.len() ==>
                    self.function_table@.contains_key(starts[j] as u32)
                    && self.function_table@[starts[j] as u32]@ == program.functions@[j].name@,
                cur == plans_before(program.functions@, start_program(n as nat), i as nat),
                os.len() == i,
                forall|j: int| 0 <= j < i ==> os[j] <= ops.len(),
                self.cursor@.len() < 0x1_0000_0000 ==> forall|j: int| 0 <= j < i ==> op_offset(ops, #[trigger] os[j] as int) == starts[j],
                i > 0 ==> os[0] == 0,
                i == 0 ==> ops.len() == 0,
                forall|j: int| 0 <= j < i ==>
                    (function_ops(#[trigger] program.functions@[j], plans_before(program.functions@, start_program(n as nat), j as nat)) matches Some(fo)
                        ==> os[j] + fo.len() == (if j + 1 < i { os[j + 1] } else { ops.len() })
                            && written_as(ops.subrange(os[j] as int, (os[j] + fo.len()) as int), fo)),
            decreases n - i,
        {
            let ghost c = self.plan();
            let ghost t0 = self.function_table@;
            let ghost len0 = self.cursor@.len();
            proof {
                let rest = program.functions@.subrange(i as int, n as int);
                assert(rest[0] == program.functions@[i as int]);
                assert(rest.drop_first() =~= program.functions@.subrange(i + 1, n as int));
                assert(sim_function(program.functions@[i as int], c) == sim_function(program.functions@[i as int], cur));
            }
            let Ghost(next_ops) = self.build_function(&program.functions[i], Ghost(i as nat), Ghost(ops));
            proof {
                let ops_before = ops;
                let old_os = os;
                os = os.push(ops_before.len());
                let later = next_ops.take(ops_before.len() as int);
                if self.cursor@.len() < 0x1_0000_0000 {
                    assert(len0 < 0x1_0000_0000);
                    assert(ops_before.take(ops_before.len() as int) =~= ops_before);
                    assert forall|j: int| 0 <= j < i + 1 implies op_offset(next_ops, #[trigger] os[j] as int) == starts.push(len0)[j] by {
                        lemma_shape_offset(ops_before, next_ops, os[j] as int);
                        if j < i {
                            assert(os[j] == old_os[j]);
                        }
                    }
                }
                assert forall|j: int| 0 <= j < i + 1 implies
                    (function_ops(#[trigger] program.functions@[j], plans_before(program.functions@, start_program(n as nat), j as nat)) matches Some(fo)
                        ==> os[j] + fo.len() == (if j + 1 < i + 1 { os[j + 1] } else { next_ops.len() })
                            && written_as(next_ops.subrange(os[j] as int, (os[j] + fo.len()) as int), fo)) by {
                    if let Some(fo) = function_ops(program.functions@[j], plans_before(program.functions@, start_program(n as nat), j as nat)) {
                        if j < i {
                            assert(os[j] == old_os[j]);
                            if j + 1 < i {
                                assert(os[j + 1] == old_os[j + 1]);
                            }
                            lemma_written_kept(ops_before, later, os[j] as int, fo);
                            assert(later.subrange(os[j] as int, (os[j] + fo.len()) as int) =~= next_ops.subrange(os[j] as int, (os[j] + fo.len()) as int));
                        } else {
                            assert(function_ops(program.functions@[i as int], c) == function_ops(program.functions@[i as int], cur));
                            assert(next_ops.skip(ops_before.len() as int) =~= next_ops.subrange(os[j] as int, (os[j] + fo.len()) as int));
                        }
                    }
                }
                let old_starts = starts;
                starts = starts.push(len0);
                assert forall|j: int| #![trigger starts[j]] 0 <= j < starts.len() && self.cursor@.len() < 0x1_0000_0000 implies
                    self.function_table@.contains_key(starts[j] as u32)
                    && self.function_table@[starts[j] as u32]@ == program.functions@[j].name@ by {
                    if j < old_starts.len() {
                        assert(starts[j] == old_starts[j]);
                        assert(old_starts[j] < len0);
                        assert(starts[j] as u32 != len0 as u32);
                    }
                }
                ops = next_ops;
                cur = sim_function(program.functions@[i as int], c)->0;
                if self.cursor@.len() < 0x1_0000_0000 {
                    lemma_names_listed_push(t0, program.functions@, i as int, len0, self.cursor@.len());
                }
            }
            i = i + 1;
        }
        proof {
            assert(program.functions@.take(n as int) =~= program.functions@);
        }
        proof {
            assert(program.functions@.subrange(n as int, n as int) =~= Seq::<Function>::empty());
            assert(code_of_functions(ops, os, program.functions@));
            if self.cursor@.len() < 0x1_0000_0000 {
                let t = table_text(self.function_table);
                assert forall|j: int| 0 <= j < starts.len() implies
                    t.contains_key(#[trigger] starts[j] as u32) && t[starts[j] as u32] == program.functions@[j].name@ by {
                    assert(self.function_table@.contains_key(starts[j] as u32));
                }
                assert(function_starts(starts, program.functions@, t, self.cursor@.len()));
            }
            assert(code_of_functions(ops, os, program.functions@)
                && (self.cursor@.len() < 0x1_0000_0000 ==> exists|starts: Seq<nat>|
                    function_starts(starts, program.functions@, table_text(self.function_table), self.cursor@.len())
                    && forall|j: int| 0 <= j < os.len() ==> op_offset(ops, #[trigger] os[j] as int) == starts[j]));
        }
        Ghost(ops)
    }
}

/// The plan before the `j` first of `functions` are built from plan `c`.
pub open spec fn plans_before(functions: Seq<Function>, c: Plan, j: nat) -> Plan
    decreases j,
{
    if j == 0 || j > functions.len() {
        c
    } else {
        sim_function(functions[j - 1], plans_before(functions, c, (j - 1) as nat))->0
    }
}

/// Whether the opcodes `ops` hold the code of each function `j` of
/// `functions` from the place `os[j]` on, the first from the start: where
/// its body holds no jump, exactly what building it writes, up to the next
/// function's place or the end of the code.
pub open spec fn code_of_functions(ops: Seq<Opcode>, os: Seq<nat>, functions: Seq<Function>) -> bool {
    &&& os.len() == functions.len()
    &&& os.len() > 0 ==> os[0] == 0
    &&& forall|j: int| 0 <= j < os.len() ==>
        (function_ops(#[trigger] functions[j], plans_before(functions, start_program(functions.len()), j as nat)) matches Some(fo)
            ==> os[j] + fo.len() == (if j + 1 < os.len() { os[j + 1] } else { ops.len() })
                && written_as(ops.subrange(os[j] as int, (os[j] + fo.len()) as int), fo))
}

/// Whether `starts` are where the code of each of `functions` starts, in
/// order: the first where the code starts, each later one further on, all
/// within the `len` bytes of code; and `table` lists each start with the
/// name of the function that starts there.
pub open spec fn function_starts(starts: Seq<nat>, functions: Seq<Function>, table: Map<u32, Seq<char>>, len: nat) -> bool {
    &&& starts.len() == functions.len()
    &&& starts.len() > 0 ==> starts[0] == 0
    &&& forall|a: int, b: int| 0 <= a < b < starts.len() ==> starts[a] < starts[b]
    &&& forall|j: int| 0 <= j < starts.len() ==> starts[j] < len
    &&& forall|j: int| 0 <= j < starts.len() ==>
        table.contains_key(#[trigger] starts[j] as u32) && table[starts[j] as u32] == functions[j].name@
}

/// Whether `table` lists each of `functions` once: one entry per function,
/// each at a position within the `len` bytes of code, and each function's
/// name at one of them.
spec fn names_listed(table: Map<u32, String>, functions: Seq<Function>, len: nat) -> bool {
    &&& table.len() == functions.len()
    &&& forall|k: u32| #[trigger] table.contains_key(k) ==> k < len
    &&& forall|j: int| 0 <= j < functions.len() ==> lists_name(table, #[trigger] functions[j].name@)
}

/// Whether `table` holds `name` at some position.
spec fn lists_name(table: Map<u32, String>, name: Seq<char>) -> bool {
    exists|k: u32| table.contains_key(k) && #[trigger] table[k]@ == name
}

/// Listing one more function, at the end of the code, keeps the listing.
proof fn lemma_names_listed_push(t0: Map<u32, String>, functions: Seq<Function>, i: int, len0: nat, len1: nat)
    requires
        0 <= i < functions.len(),
        len0 < len1 < 0x1_0000_0000,
        t0.dom().finite(),
        names_listed(t0, functions.take(i), len0),
    ensures
        names_listed(t0.insert(len0 as u32, functions[i].name), functions.take(i + 1), len1),
{
    let k0 = len0 as u32;
    let t1 = t0.insert(k0, functions[i].name);
    assert(k0 == len0);
    assert(!t0.contains_key(k0));
    assert(t1.dom() =~= t0.dom().insert(k0));
    assert(t1.len() == t0.len() + 1);
    assert(functions.take(i + 1).len() == functions.take(i).len() + 1);
    assert forall|k: u32| #[trigger] t1.contains_key(k) implies k < len1 by {
        if k != k0 {
            assert(t0.contains_key(k));
        }
    }
    assert forall|j: int| 0 <= j < functions.take(i + 1).len() implies
        lists_name(t1, #[trigger] functions.take(i + 1)[j].name@) by {
        if j < i {
            assert(functions.take(i)[j] == functions.take(i + 1)[j]);
            assert(lists_name(t0, functions.take(i)[j].name@));
            let k = choose|k: u32| t0.contains_key(k) && #[trigger] t0[k]@ == functions.take(i)[j].name@;
            assert(k != k0);
            assert(t1[k] == t0[k]);
            assert(t1.contains_key(k) && t1[k]@ == functions.take(i + 1)[j].name@);
        } else {
            assert(functions.take(i + 1)[j] == functions[i]);
            assert(t1.contains_key(k0) && t1[k0]@ == functions.take(i + 1)[j].name@);
        }
    }
}

/// Turns a lowered program into a bytecode file: the magic bytes, the pool
/// of the constants that the code loads, in the order in which they are
/// first met, the table of the functions' positions and names, and the
/// code of the functions one after the other. While the file stays under
/// 4 GiB, the code is made of whole opcodes, every jump and every function
/// load holds a position where an opcode starts or where the code ends, and
/// reading the file back gives the constants, the table and the opcodes.
/// The first function starts where the code starts and each later one
/// further on, the table lists each start with its function's name, and
/// where a function's body holds no jump, its code is its arguments taken
/// apart, its body's operands and operators in order (`straight_ops`), and
/// a return; the positions that its function loads hold are left aside.
/// An empty program gives the header alone.
#[verifier::spinoff_prover]
pub fn emit(program: Program) -> (res: Result<Vec<u8>>)
    requires
        emittable(program.functions@),
    ensures
        res matches Ok(bytes) && exists|entries: Seq<(u32, Seq<char>)>, code: Seq<u8>| {
            &&& bytes@ == magic_bytes()
                + encode_constant_pool(sim_functions(program.functions@, start_program(program.functions@.len()))->0.consts)
                + encode_function_table(entries) + code
            &&& entries.len() <= program.functions@.len()
            &&& forall|i: int, j: int| 0 <= i < j < entries.len() ==> entries[i].0 != entries[j].0
            &&& code.len() < 0x1_0000_0000 ==> {
                &&& entries.len() == program.functions@.len()
                &&& forall|i: int| 0 <= i < entries.len() ==> (#[trigger] entries[i]).0 < code.len()
                &&& forall|j: int| #![trigger program.functions@[j]] 0 <= j < program.functions@.len() ==>
                    exists|i: int| 0 <= i < entries.len() && #[trigger] entries[i].1 == program.functions@[j].name@
                &&& exists|ops: Seq<Opcode>| code == encode_ops(ops) && targets_ok(ops)
                &&& exists|ops: Seq<Opcode>, os: Seq<nat>, starts: Seq<nat>| {
                    &&& code == encode_ops(ops)
                    &&& code_of_functions(ops, os, program.functions@)
                    &&& function_starts(starts, program.functions@, table_of(entries), code.len())
                    &&& forall|j: int| 0 <= j < os.len() ==> op_offset(ops, #[trigger] os[j] as int) == starts[j]
                }
            }
            &&& program.functions@.len() == 0 ==> entries.len() == 0 && code.len() == 0
            &&& bytes@.len() < 0x1_0000_0000 ==> exists|ops: Seq<Opcode>| {
                &&& code == encode_ops(ops)
                &&& targets_ok(ops)
                &&& decode_file(bytes@) == Ok::<(Seq<ValueModel>, Map<u32, Seq<char>>, Seq<(nat, Opcode)>), Error>((
                    sim_functions(program.functions@, start_program(program.functions@.len()))->0.consts,
                    table_of(entries),
                    listing_of(ops, 0),
                ))
            }
        },
{
    broadcast use vstd::std_specs::hash::group_hash_axioms;

    let mut bb = BytecodeBuilder::new();
    let ghost_ops = bb.build_program(&program);

    let mut bytecode: Vec<u8> = Vec::new();
    write_magic(&mut bytecode);
    proof {
        lemma_models_len(bb.constants@);
        assert forall|i: int| 0 <= i < models(bb.constants@).len() implies writable(#[trigger] models(bb.constants@)[i]) by {
            lemma_models_index(bb.constants@, i);
        }
        lemma_all_writable_each(models(bb.constants@));
    }
    write_constant_pool(&mut bytecode, &bb.constants);
    let ghost before_table = bytecode@;
    write_function_table(&mut bytecode, &bb.function_table);
    let ghost code = bb.cursor@;
    proof {
        let entries = choose|entries: Seq<(u32, Seq<char>)>| {
            &&& lists_table(entries, table_text(bb.function_table))
            &&& entries.len() == bb.function_table@.len()
            &&& bytecode@ == before_table + encode_function_table(entries)
        };
        if code.len() < 0x1_0000_0000 {
            let m = table_text(bb.function_table);
            assert forall|i: int| 0 <= i < entries.len() implies (#[trigger] entries[i]).0 < code.len() by {
                assert(m.contains_key(entries[i].0));
            }
            assert forall|j: int| #![trigger program.functions@[j]] 0 <= j < program.functions@.len() implies
                exists|i: int| 0 <= i < entries.len() && #[trigger] entries[i].1 == program.functions@[j].name@ by {
                assert(lists_name(bb.function_table@, program.functions@[j].name@));
                let k = choose|k: u32| bb.function_table@.contains_key(k) && #[trigger] bb.function_table@[k]@ == program.functions@[j].name@;
                assert(m.contains_key(k));
                let i = choose|i: int| 0 <= i < entries.len() && #[trigger] entries[i].0 == k;
                assert(entries[i].1 == m[k]);
            }
            assert(code == encode_ops(ghost_ops@));
            lemma_table_of_listing(entries, m);
            let os = choose|os: Seq<nat>| code_of_functions(ghost_ops@, os, program.functions@)
                && (code.len() < 0x1_0000_0000 ==> exists|starts: Seq<nat>|
                    function_starts(starts, program.functions@, table_text(bb.function_table), code.len())
                    && forall|j: int| 0 <= j < os.len() ==> op_offset(ghost_ops@, #[trigger] os[j] as int) == starts[j]);
            let starts = choose|starts: Seq<nat>|
                function_starts(starts, program.functions@, table_text(bb.function_table), code.len())
                && forall|j: int| 0 <= j < os.len() ==> op_offset(ghost_ops@, #[trigger] os[j] as int) == starts[j];
            assert(function_starts(starts, program.functions@, table_of(entries), code.len()));
        }
        let whole = bytecode@ + code;
        if whole.len() < 0x1_0000_0000 {
            let consts = models(bb.constants@);
            assert(whole =~= magic_bytes() + encode_constant_pool(consts) + encode_function_table(entries) + code);
            lemma_le_bytes_len(entries.len(), 2);
            assert(encode_function_infos(entries).len() < 0x1_0000_0000);
            lemma_small_table_names_fit(entries);
            lemma_file_roundtrip(consts, entries, ghost_ops@);
        }
    }
    let mut code_bytes = bb.cursor;
    bytecode.append(&mut code_bytes);
    Ok(bytecode)
}

} // verus!
