//! The opcodes of the Marin virtual machine and the byte that names each.

use vstd::prelude::*;

verus! {

/// One instruction of the virtual machine, with its operand if it has one.
#[allow(non_camel_case_types)]
#[derive(Debug, Copy, Clone, PartialEq, Eq, Structural)]
pub enum Opcode {
    load_fun(u32),
    bundle(u8),
    bundle_big(u64),
    index_dup(u8),
    index_big_dup(u64),
    index(u8),
    index_big(u64),
    index_dyn,
    spill(u16),
    add,
    sub,
    mul,
    div,
    modulo,
    and,
    or,
    xor,
    pow,
    exp,
    ln,
    pos,
    neg,
    not,
    eq,
    ne,
    lt,
    le,
    gt,
    ge,
    sin,
    cos,
    tan,
    asin,
    acos,
    atan,
    load_const(u16),
    load_local(u8),
    set_local(u8),
    load_nil,
    jump(u32),
    jump_if(u32),
    jump_if_not(u32),
    jump_eq(u32),
    jump_ne(u32),
    do_frame,
    end_frame,
    call(u8),
    ret,
    pop,
    pop_offset(u16),
    dup,
    panic,
}

pub const LOAD_FUN: u8 = 0x0a;

pub const BUNDLE: u8 = 0x10;

pub const BUNDLE_BIG: u8 = 0x11;

pub const INDEX_DUP: u8 = 0x12;

pub const INDEX_BIG_DUP: u8 = 0x13;

pub const INDEX: u8 = 0x14;

pub const INDEX_BIG: u8 = 0x16;

pub const INDEX_DYN: u8 = 0x17;

pub const SPILL: u8 = 0x18;

pub const ADD: u8 = 0x20;

pub const SUB: u8 = 0x21;

pub const MUL: u8 = 0x22;

pub const DIV: u8 = 0x23;

pub const MODULO: u8 = 0x24;

pub const AND: u8 = 0x25;

pub const OR: u8 = 0x26;

pub const XOR: u8 = 0x27;

pub const POW: u8 = 0x28;

pub const EXP: u8 = 0x30;

pub const LN: u8 = 0x31;

pub const POS: u8 = 0x40;

pub const NEG: u8 = 0x41;

pub const NOT: u8 = 0x42;

pub const EQ: u8 = 0x50;

pub const NE: u8 = 0x51;

pub const LT: u8 = 0x52;

pub const LE: u8 = 0x53;

pub const GT: u8 = 0x54;

pub const GE: u8 = 0x55;

pub const SIN: u8 = 0x70;

pub const COS: u8 = 0x71;

pub const TAN: u8 = 0x72;

pub const ASIN: u8 = 0x73;

pub const ACOS: u8 = 0x74;

pub const ATAN: u8 = 0x75;

pub const LOAD_CONST: u8 = 0xa0;

pub const LOAD_LOCAL: u8 = 0xa2;

pub const SET_LOCAL: u8 = 0xa3;

pub const LOAD_NIL: u8 = 0xa4;

pub const JUMP: u8 = 0xb0;

pub const JUMP_IF: u8 = 0xb1;

pub const JUMP_IF_NOT: u8 = 0xb2;

pub const JUMP_EQ: u8 = 0xb3;

pub const JUMP_NE: u8 = 0xb4;

pub const DO_FRAME: u8 = 0xb5;

pub const END_FRAME: u8 = 0xb6;

pub const CALL: u8 = 0xbe;

pub const RET: u8 = 0xbf;

pub const POP: u8 = 0xe0;

pub const POP_OFFSET: u8 = 0xe1;

pub const DUP: u8 = 0xe2;

pub const PANIC: u8 = 0xfe;

/// The byte that names each opcode in a bytecode file, as the file format
/// fixes it.
pub proof fn lemma_opcode_bytes(op: Opcode)
    ensures
        op is load_fun ==> opcode_tag(op) == 0x0au8,
        op is bundle ==> opcode_tag(op) == 0x10u8,
        op is bundle_big ==> opcode_tag(op) == 0x11u8,
        op is index_dup ==> opcode_tag(op) == 0x12u8,
        op is index_big_dup ==> opcode_tag(op) == 0x13u8,
        op is index ==> opcode_tag(op) == 0x14u8,
        op is index_big ==> opcode_tag(op) == 0x16u8,
        op is index_dyn ==> opcode_tag(op) == 0x17u8,
        op is spill ==> opcode_tag(op) == 0x18u8,
        op is add ==> opcode_tag(op) == 0x20u8,
        op is sub ==> opcode_tag(op) == 0x21u8,
        op is mul ==> opcode_tag(op) == 0x22u8,
        op is div ==> opcode_tag(op) == 0x23u8,
        op is modulo ==> opcode_tag(op) == 0x24u8,
        op is and ==> opcode_tag(op) == 0x25u8,
        op is or ==> opcode_tag(op) == 0x26u8,
        op is xor ==> opcode_tag(op) == 0x27u8,
        op is pow ==> opcode_tag(op) == 0x28u8,
        op is exp ==> opcode_tag(op) == 0x30u8,
        op is ln ==> opcode_tag(op) == 0x31u8,
        op is pos ==> opcode_tag(op) == 0x40u8,
        op is neg ==> opcode_tag(op) == 0x41u8,
        op is not ==> opcode_tag(op) == 0x42u8,
        op is eq ==> opcode_tag(op) == 0x50u8,
        op is ne ==> opcode_tag(op) == 0x51u8,
        op is lt ==> opcode_tag(op) == 0x52u8,
        op is le ==> opcode_tag(op) == 0x53u8,
        op is gt ==> opcode_tag(op) == 0x54u8,
        op is ge ==> opcode_tag(op) == 0x55u8,
        op is sin ==> opcode_tag(op) == 0x70u8,
        op is cos ==> opcode_tag(op) == 0x71u8,
        op is tan ==> opcode_tag(op) == 0x72u8,
        op is asin ==> opcode_tag(op) == 0x73u8,
        op is acos ==> opcode_tag(op) == 0x74u8,
        op is atan ==> opcode_tag(op) == 0x75u8,
        op is load_const ==> opcode_tag(op) == 0xa0u8,
        op is load_local ==> opcode_tag(op) == 0xa2u8,
        op is set_local ==> opcode_tag(op) == 0xa3u8,
        op is load_nil ==> opcode_tag(op) == 0xa4u8,
        op is jump ==> opcode_tag(op) == 0xb0u8,
        op is jump_if ==> opcode_tag(op) == 0xb1u8,
        op is jump_if_not ==> opcode_tag(op) == 0xb2u8,
        op is jump_eq ==> opcode_tag(op) == 0xb3u8,
        op is jump_ne ==> opcode_tag(op) == 0xb4u8,
        op is do_frame ==> opcode_tag(op) == 0xb5u8,
        op is end_frame ==> opcode_tag(op) == 0xb6u8,
        op is call ==> opcode_tag(op) == 0xbeu8,
        op is ret ==> opcode_tag(op) == 0xbfu8,
        op is pop ==> opcode_tag(op) == 0xe0u8,
        op is pop_offset ==> opcode_tag(op) == 0xe1u8,
        op is dup ==> opcode_tag(op) == 0xe2u8,
        op is panic ==> opcode_tag(op) == 0xfeu8,
{
}

/// The byte that names an opcode.
pub open spec fn opcode_tag(op: Opcode) -> u8 {
    match op {
        Opcode::load_fun(_) => LOAD_FUN,
        Opcode::bundle(_) => BUNDLE,
        Opcode::bundle_big(_) => BUNDLE_BIG,
        Opcode::index_dup(_) => INDEX_DUP,
        Opcode::index_big_dup(_) => INDEX_BIG_DUP,
        Opcode::index(_) => INDEX,
        Opcode::index_big(_) => INDEX_BIG,
        Opcode::index_dyn => INDEX_DYN,
        Opcode::spill(_) => SPILL,
        Opcode::add => ADD,
        Opcode::sub => SUB,
        Opcode::mul => MUL,
        Opcode::div => DIV,
        Opcode::modulo => MODULO,
        Opcode::and => AND,
        Opcode::or => OR,
        Opcode::xor => XOR,
        Opcode::pow => POW,
        Opcode::exp => EXP,
        Opcode::ln => LN,
        Opcode::pos => POS,
        Opcode::neg => NEG,
        Opcode::not => NOT,
        Opcode::eq => EQ,
        Opcode::ne => NE,
        Opcode::lt => LT,
        Opcode::le => LE,
        Opcode::gt => GT,
        Opcode::ge => GE,
        Opcode::sin => SIN,
        Opcode::cos => COS,
        Opcode::tan => TAN,
        Opcode::asin => ASIN,
        Opcode::acos => ACOS,
        Opcode::atan => ATAN,
        Opcode::load_const(_) => LOAD_CONST,
        Opcode::load_local(_) => LOAD_LOCAL,
        Opcode::set_local(_) => SET_LOCAL,
        Opcode::load_nil => LOAD_NIL,
        Opcode::jump(_) => JUMP,
        Opcode::jump_if(_) => JUMP_IF,
        Opcode::jump_if_not(_) => JUMP_IF_NOT,
        Opcode::jump_eq(_) => JUMP_EQ,
        Opcode::jump_ne(_) => JUMP_NE,
        Opcode::do_frame => DO_FRAME,
        Opcode::end_frame => END_FRAME,
        Opcode::call(_) => CALL,
        Opcode::ret => RET,
        Opcode::pop => POP,
        Opcode::pop_offset(_) => POP_OFFSET,
        Opcode::dup => DUP,
        Opcode::panic => PANIC,
    }
}

/// The width in bytes of an opcode's operand and its value (width 0 when it has none).
pub open spec fn opcode_operand(op: Opcode) -> (nat, nat) {
    match op {
        Opcode::load_fun(x) => (4, x as nat),
        Opcode::bundle(x) => (1, x as nat),
        Opcode::bundle_big(x) => (8, x as nat),
        Opcode::index_dup(x) => (1, x as nat),
        Opcode::index_big_dup(x) => (8, x as nat),
        Opcode::index(x) => (1, x as nat),
        Opcode::index_big(x) => (8, x as nat),
        Opcode::index_dyn => (0, 0),
        Opcode::spill(x) => (2, x as nat),
        Opcode::add => (0, 0),
        Opcode::sub => (0, 0),
        Opcode::mul => (0, 0),
        Opcode::div => (0, 0),
        Opcode::modulo => (0, 0),
        Opcode::and => (0, 0),
        Opcode::or => (0, 0),
        Opcode::xor => (0, 0),
        Opcode::pow => (0, 0),
        Opcode::exp => (0, 0),
        Opcode::ln => (0, 0),
        Opcode::pos => (0, 0),
        Opcode::neg => (0, 0),
        Opcode::not => (0, 0),
        Opcode::eq => (0, 0),
        Opcode::ne => (0, 0),
        Opcode::lt => (0, 0),
        Opcode::le => (0, 0),
        Opcode::gt => (0, 0),
        Opcode::ge => (0, 0),
        Opcode::sin => (0, 0),
        Opcode::cos => (0, 0),
        Opcode::tan => (0, 0),
        Opcode::asin => (0, 0),
        Opcode::acos => (0, 0),
        Opcode::atan => (0, 0),
        Opcode::load_const(x) => (2, x as nat),
        Opcode::load_local(x) => (1, x as nat),
        Opcode::set_local(x) => (1, x as nat),
        Opcode::load_nil => (0, 0),
        Opcode::jump(x) => (4, x as nat),
        Opcode::jump_if(x) => (4, x as nat),
        Opcode::jump_if_not(x) => (4, x as nat),
        Opcode::jump_eq(x) => (4, x as nat),
        Opcode::jump_ne(x) => (4, x as nat),
        Opcode::do_frame => (0, 0),
        Opcode::end_frame => (0, 0),
        Opcode::call(x) => (1, x as nat),
        Opcode::ret => (0, 0),
        Opcode::pop => (0, 0),
        Opcode::pop_offset(x) => (2, x as nat),
        Opcode::dup => (0, 0),
        Opcode::panic => (0, 0),
    }
}

/// The width of the operand that follows the byte `tag`, or `None` when `tag`
/// names no opcode.
pub open spec fn operand_width(tag: u8) -> Option<nat> {
    if tag == LOAD_FUN {
        Some(4)
    } else if tag == BUNDLE {
        Some(1)
    } else if tag == BUNDLE_BIG {
        Some(8)
    } else if tag == INDEX_DUP {
        Some(1)
    } else if tag == INDEX_BIG_DUP {
        Some(8)
    } else if tag == INDEX {
        Some(1)
    } else if tag == INDEX_BIG {
        Some(8)
    } else if tag == SPILL {
        Some(2)
    } else if tag == ADD {
        Some(0)
    } else if tag == SUB {
        Some(0)
    } else if tag == MUL {
        Some(0)
    } else if tag == DIV {
        Some(0)
    } else if tag == MODULO {
        Some(0)
    } else if tag == AND {
        Some(0)
    } else if tag == OR {
        Some(0)
    } else if tag == XOR {
        Some(0)
    } else if tag == POW {
        Some(0)
    } else if tag == EXP {
        Some(0)
    } else if tag == LN {
        Some(0)
    } else if tag == POS {
        Some(0)
    } else if tag == NEG {
        Some(0)
    } else if tag == NOT {
        Some(0)
    } else if tag == EQ {
        Some(0)
    } else if tag == NE {
        Some(0)
    } else if tag == LT {
        Some(0)
    } else if tag == LE {
        Some(0)
    } else if tag == GT {
        Some(0)
    } else if tag == GE {
        Some(0)
    } else if tag == SIN {
        Some(0)
    } else if tag == COS {
        Some(0)
    } else if tag == TAN {
        Some(0)
    } else if tag == ASIN {
        Some(0)
    } else if tag == ACOS {
        Some(0)
    } else if tag == ATAN {
        Some(0)
    } else if tag == LOAD_CONST {
        Some(2)
    } else if tag == LOAD_LOCAL {
        Some(1)
    } else if tag == SET_LOCAL {
        Some(1)
    } else if tag == LOAD_NIL {
        Some(0)
    } else if tag == JUMP {
        Some(4)
    } else if tag == JUMP_IF {
        Some(4)
    } else if tag == JUMP_IF_NOT {
        Some(4)
    } else if tag == JUMP_EQ {
        Some(4)
    } else if tag == JUMP_NE {
        Some(4)
    } else if tag == DO_FRAME {
        Some(0)
    } else if tag == END_FRAME {
        Some(0)
    } else if tag == CALL {
        Some(1)
    } else if tag == RET {
        Some(0)
    } else if tag == POP {
        Some(0)
    } else if tag == POP_OFFSET {
        Some(2)
    } else if tag == DUP {
        Some(0)
    } else if tag == PANIC {
        Some(0)
    } else {
        None
    }
}

/// The opcode named by `tag` with operand `operand`.
pub open spec fn opcode_with_operand(tag: u8, operand: nat) -> Opcode {
    if tag == LOAD_FUN {
        Opcode::load_fun(operand as u32)
    } else if tag == BUNDLE {
        Opcode::bundle(operand as u8)
    } else if tag == BUNDLE_BIG {
        Opcode::bundle_big(operand as u64)
    } else if tag == INDEX_DUP {
        Opcode::index_dup(operand as u8)
    } else if tag == INDEX_BIG_DUP {
        Opcode::index_big_dup(operand as u64)
    } else if tag == INDEX {
        Opcode::index(operand as u8)
    } else if tag == INDEX_BIG {
        Opcode::index_big(operand as u64)
    } else if tag == INDEX_DYN {
        Opcode::index_dyn
    } else if tag == SPILL {
        Opcode::spill(operand as u16)
    } else if tag == ADD {
        Opcode::add
    } else if tag == SUB {
        Opcode::sub
    } else if tag == MUL {
        Opcode::mul
    } else if tag == DIV {
        Opcode::div
    } else if tag == MODULO {
        Opcode::modulo
    } else if tag == AND {
        Opcode::and
    } else if tag == OR {
        Opcode::or
    } else if tag == XOR {
        Opcode::xor
    } else if tag == POW {
        Opcode::pow
    } else if tag == EXP {
        Opcode::exp
    } else if tag == LN {
        Opcode::ln
    } else if tag == POS {
        Opcode::pos
    } else if tag == NEG {
        Opcode::neg
    } else if tag == NOT {
        Opcode::not
    } else if tag == EQ {
        Opcode::eq
    } else if tag == NE {
        Opcode::ne
    } else if tag == LT {
        Opcode::lt
    } else if tag == LE {
        Opcode::le
    } else if tag == GT {
        Opcode::gt
    } else if tag == GE {
        Opcode::ge
    } else if tag == SIN {
        Opcode::sin
    } else if tag == COS {
        Opcode::cos
    } else if tag == TAN {
        Opcode::tan
    } else if tag == ASIN {
        Opcode::asin
    } else if tag == ACOS {
        Opcode::acos
    } else if tag == ATAN {
        Opcode::atan
    } else if tag == LOAD_CONST {
        Opcode::load_const(operand as u16)
    } else if tag == LOAD_LOCAL {
        Opcode::load_local(operand as u8)
    } else if tag == SET_LOCAL {
        Opcode::set_local(operand as u8)
    } else if tag == LOAD_NIL {
        Opcode::load_nil
    } else if tag == JUMP {
        Opcode::jump(operand as u32)
    } else if tag == JUMP_IF {
        Opcode::jump_if(operand as u32)
    } else if tag == JUMP_IF_NOT {
        Opcode::jump_if_not(operand as u32)
    } else if tag == JUMP_EQ {
        Opcode::jump_eq(operand as u32)
    } else if tag == JUMP_NE {
        Opcode::jump_ne(operand as u32)
    } else if tag == DO_FRAME {
        Opcode::do_frame
    } else if tag == END_FRAME {
        Opcode::end_frame
    } else if tag == CALL {
        Opcode::call(operand as u8)
    } else if tag == RET {
        Opcode::ret
    } else if tag == POP {
        Opcode::pop
    } else if tag == POP_OFFSET {
        Opcode::pop_offset(operand as u16)
    } else if tag == DUP {
        Opcode::dup
    } else {
        Opcode::panic
    }
}

} // verus!
