//! Reading and writing opcodes.

use vstd::prelude::*;
use super::error::{Error, Result};
use super::le::{le_value, le_bytes, byte_range, append_bytes, le_u16_bytes, le_u32_bytes, le_u64_bytes, le_u16_at, le_u32_at, le_u64_at, lemma_byte_range_values, lemma_le_bytes_len, lemma_le_value_of_bytes, lemma_le_value_bound, lemma_le_bytes_of_value};
use super::opcode;
use super::opcode::{Opcode, opcode_tag, opcode_operand, operand_width, opcode_with_operand};

verus! {

/// The bytes that stand for `op`: its naming byte, then its operand in
/// little-endian order.
pub open spec fn encode_opcode(op: Opcode) -> Seq<u8> {
    seq![opcode_tag(op)] + le_bytes(opcode_operand(op).1, opcode_operand(op).0)
}

/// What reading an opcode from the start of `s` gives: the opcode and the
/// number of bytes it takes, or the error met.
pub open spec fn decode_opcode(s: Seq<u8>) -> Result<(Opcode, nat)> {
    if s.len() == 0 {
        Err(Error::IO)
    } else {
        match operand_width(s[0]) {
            None => Err(Error::IllegalOpcode(s[0])),
            Some(w) => if s.len() < 1 + w {
                Err(Error::IO)
            } else {
                Ok((opcode_with_operand(s[0], le_value(s.subrange(1, 1 + w as int))), 1 + w))
            },
        }
    }
}

/// Reading back what was written for an opcode gives that opcode, whatever
/// follows it.
pub proof fn lemma_opcode_roundtrip(op: Opcode, rest: Seq<u8>)
    requires
        !(op is index_dyn),
    ensures
        decode_opcode(encode_opcode(op) + rest) == Ok::<(Opcode, nat), Error>((op, encode_opcode(op).len())),
{
    let (w, v) = opcode_operand(op);
    lemma_byte_range_values();
    lemma_le_bytes_len(v, w);
    let s = encode_opcode(op) + rest;
    assert(s.subrange(1, 1 + w as int) =~= le_bytes(v, w));
    assert(v < byte_range(w));
    lemma_le_value_of_bytes(v, w);
    assert(operand_width(opcode_tag(op)) == Some(w));
    assert(opcode_with_operand(opcode_tag(op), v) == op);
}

proof fn lemma_le_bytes_one(x: u8)
    ensures
        le_bytes(x as nat, 1) == seq![x],
{
    reveal_with_fuel(le_bytes, 2);
    assert(le_bytes(x as nat, 1) =~= seq![x]);
}

proof fn lemma_le_value_one(s: Seq<u8>)
    requires
        s.len() == 1,
    ensures
        le_value(s) == s[0],
{
    reveal_with_fuel(le_value, 2);
}

proof fn lemma_le_bytes_none(x: nat)
    ensures
        le_bytes(x, 0) == Seq::<u8>::empty(),
{
}

/// Writes the bytes that stand for `opcode` at the end of `w`.
pub fn write_opcode(w: &mut Vec<u8>, opcode: &Opcode)
    ensures
        final(w)@ == old(w)@ + encode_opcode(*opcode),
{
    match opcode {
        Opcode::load_fun(x) => {
            w.push(opcode::LOAD_FUN);
            append_bytes(w, &le_u32_bytes(*x));
        }
        Opcode::bundle(x) => {
            proof { lemma_le_bytes_one(*x); }
            w.push(opcode::BUNDLE);
            w.push(*x);
        }
        Opcode::bundle_big(x) => {
            w.push(opcode::BUNDLE_BIG);
            append_bytes(w, &le_u64_bytes(*x));
        }
        Opcode::index_dup(x) => {
            proof { lemma_le_bytes_one(*x); }
            w.push(opcode::INDEX_DUP);
            w.push(*x);
        }
        Opcode::index_big_dup(x) => {
            w.push(opcode::INDEX_BIG_DUP);
            append_bytes(w, &le_u64_bytes(*x));
        }
        Opcode::index(x) => {
            proof { lemma_le_bytes_one(*x); }
            w.push(opcode::INDEX);
            w.push(*x);
        }
        Opcode::index_big(x) => {
            w.push(opcode::INDEX_BIG);
            append_bytes(w, &le_u64_bytes(*x));
        }
        // `index_dyn` is written as the opcode table gives it, at 0x17 with no
        // operand; reading does not take that byte, as no code is made with it.
        Opcode::index_dyn => {
            proof { lemma_le_bytes_none(0); }
            w.push(opcode::INDEX_DYN);
        }
        Opcode::spill(x) => {
            w.push(opcode::SPILL);
            append_bytes(w, &le_u16_bytes(*x));
        }
        Opcode::add => {
            proof { lemma_le_bytes_none(0); }
            w.push(opcode::ADD);
        }
        Opcode::sub => {
            proof { lemma_le_bytes_none(0); }
            w.push(opcode::SUB);
        }
        Opcode::mul => {
            proof { lemma_le_bytes_none(0); }
            w.push(opcode::MUL);
        }
        Opcode::div => {
            proof { lemma_le_bytes_none(0); }
            w.push(opcode::DIV);
        }
        Opcode::modulo => {
            proof { lemma_le_bytes_none(0); }
            w.push(opcode::MODULO);
        }
        Opcode::and => {
            proof { lemma_le_bytes_none(0); }
            w.push(opcode::AND);
        }
        Opcode::or => {
            proof { lemma_le_bytes_none(0); }
            w.push(opcode::OR);
        }
        Opcode::xor => {
            proof { lemma_le_bytes_none(0); }
            w.push(opcode::XOR);
        }
        Opcode::pow => {
            proof { lemma_le_bytes_none(0); }
            w.push(opcode::POW);
        }
        Opcode::exp => {
            proof { lemma_le_bytes_none(0); }
            w.push(opcode::EXP);
        }
        Opcode::ln => {
            proof { lemma_le_bytes_none(0); }
            w.push(opcode::LN);
        }
        Opcode::pos => {
            proof { lemma_le_bytes_none(0); }
            w.push(opcode::POS);
        }
        Opcode::neg => {
            proof { lemma_le_bytes_none(0); }
            w.push(opcode::NEG);
        }
        Opcode::not => {
            proof { lemma_le_bytes_none(0); }
            w.push(opcode::NOT);
        }
        Opcode::eq => {
            proof { lemma_le_bytes_none(0); }
            w.push(opcode::EQ);
        }
        Opcode::ne => {
            proof { lemma_le_bytes_none(0); }
            w.push(opcode::NE);
        }
        Opcode::lt => {
            proof { lemma_le_bytes_none(0); }
            w.push(opcode::LT);
        }
        Opcode::le => {
            proof { lemma_le_bytes_none(0); }
            w.push(opcode::LE);
        }
        Opcode::gt => {
            proof { lemma_le_bytes_none(0); }
            w.push(opcode::GT);
        }
        Opcode::ge => {
            proof { lemma_le_bytes_none(0); }
            w.push(opcode::GE);
        }
        Opcode::sin => {
            proof { lemma_le_bytes_none(0); }
            w.push(opcode::SIN);
        }
        Opcode::cos => {
            proof { lemma_le_bytes_none(0); }
            w.push(opcode::COS);
        }
        Opcode::tan => {
            proof { lemma_le_bytes_none(0); }
            w.push(opcode::TAN);
        }
        Opcode::asin => {
            proof { lemma_le_bytes_none(0); }
            w.push(opcode::ASIN);
        }
        Opcode::acos => {
            proof { lemma_le_bytes_none(0); }
            w.push(opcode::ACOS);
        }
        Opcode::atan => {
            proof { lemma_le_bytes_none(0); }
            w.push(opcode::ATAN);
        }
        Opcode::load_const(x) => {
            w.push(opcode::LOAD_CONST);
            append_bytes(w, &le_u16_bytes(*x));
        }
        Opcode::load_local(x) => {
            proof { lemma_le_bytes_one(*x); }
            w.push(opcode::LOAD_LOCAL);
            w.push(*x);
        }
        Opcode::set_local(x) => {
            proof { lemma_le_bytes_one(*x); }
            w.push(opcode::SET_LOCAL);
            w.push(*x);
        }
        Opcode::load_nil => {
            proof { lemma_le_bytes_none(0); }
            w.push(opcode::LOAD_NIL);
        }
        Opcode::jump(x) => {
            w.push(opcode::JUMP);
            append_bytes(w, &le_u32_bytes(*x));
        }
        Opcode::jump_if(x) => {
            w.push(opcode::JUMP_IF);
            append_bytes(w, &le_u32_bytes(*x));
        }
        Opcode::jump_if_not(x) => {
            w.push(opcode::JUMP_IF_NOT);
            append_bytes(w, &le_u32_bytes(*x));
        }
        Opcode::jump_eq(x) => {
            w.push(opcode::JUMP_EQ);
            append_bytes(w, &le_u32_bytes(*x));
        }
        Opcode::jump_ne(x) => {
            w.push(opcode::JUMP_NE);
            append_bytes(w, &le_u32_bytes(*x));
        }
        Opcode::do_frame => {
            proof { lemma_le_bytes_none(0); }
            w.push(opcode::DO_FRAME);
        }
        Opcode::end_frame => {
            proof { lemma_le_bytes_none(0); }
            w.push(opcode::END_FRAME);
        }
        Opcode::call(x) => {
            proof { lemma_le_bytes_one(*x); }
            w.push(opcode::CALL);
            w.push(*x);
        }
        Opcode::ret => {
            proof { lemma_le_bytes_none(0); }
            w.push(opcode::RET);
        }
        Opcode::pop => {
            proof { lemma_le_bytes_none(0); }
            w.push(opcode::POP);
        }
        Opcode::pop_offset(x) => {
            w.push(opcode::POP_OFFSET);
            append_bytes(w, &le_u16_bytes(*x));
        }
        Opcode::dup => {
            proof { lemma_le_bytes_none(0); }
            w.push(opcode::DUP);
        }
        Opcode::panic => {
            proof { lemma_le_bytes_none(0); }
            w.push(opcode::PANIC);
        }
    }
    proof {
        assert(final(w)@ =~= old(w)@ + encode_opcode(*opcode));
    }
}

/// Reads the 1-byte operand at `pos`.
fn read_operand_u8(bytes: &[u8], pos: usize) -> (res: Result<(u8, usize)>)
    requires
        pos <= bytes@.len(),
    ensures
        if bytes@.len() - pos >= 1 {
            res == Ok::<(u8, usize), Error>((le_value(bytes@.subrange(pos as int, pos + 1)) as u8, (pos + 1) as usize))
        } else {
            res == Err::<(u8, usize), Error>(Error::IO)
        },
{
    if bytes.len() - pos < 1 {
        return Err(Error::IO);
    }
    proof {
        lemma_le_value_one(bytes@.subrange(pos as int, pos + 1));
    }
    Ok((bytes[pos], pos + 1))
}

/// Reads the 2-byte operand at `pos`.
fn read_operand_u16(bytes: &[u8], pos: usize) -> (res: Result<(u16, usize)>)
    requires
        pos <= bytes@.len(),
    ensures
        if bytes@.len() - pos >= 2 {
            res == Ok::<(u16, usize), Error>((le_value(bytes@.subrange(pos as int, pos + 2)) as u16, (pos + 2) as usize))
        } else {
            res == Err::<(u16, usize), Error>(Error::IO)
        },
{
    if bytes.len() - pos < 2 {
        return Err(Error::IO);
    }
    proof {
        lemma_le_value_bound(bytes@.subrange(pos as int, pos + 2));
        lemma_byte_range_values();
    }
    Ok((le_u16_at(bytes, pos), pos + 2))
}

/// Reads the 4-byte operand at `pos`.
fn read_operand_u32(bytes: &[u8], pos: usize) -> (res: Result<(u32, usize)>)
    requires
        pos <= bytes@.len(),
    ensures
        if bytes@.len() - pos >= 4 {
            res == Ok::<(u32, usize), Error>((le_value(bytes@.subrange(pos as int, pos + 4)) as u32, (pos + 4) as usize))
        } else {
            res == Err::<(u32, usize), Error>(Error::IO)
        },
{
    if bytes.len() - pos < 4 {
        return Err(Error::IO);
    }
    proof {
        lemma_le_value_bound(bytes@.subrange(pos as int, pos + 4));
        lemma_byte_range_values();
    }
    Ok((le_u32_at(bytes, pos), pos + 4))
}

/// Reads the 8-byte operand at `pos`.
fn read_operand_u64(bytes: &[u8], pos: usize) -> (res: Result<(u64, usize)>)
    requires
        pos <= bytes@.len(),
    ensures
        if bytes@.len() - pos >= 8 {
            res == Ok::<(u64, usize), Error>((le_value(bytes@.subrange(pos as int, pos + 8)) as u64, (pos + 8) as usize))
        } else {
            res == Err::<(u64, usize), Error>(Error::IO)
        },
{
    if bytes.len() - pos < 8 {
        return Err(Error::IO);
    }
    proof {
        lemma_le_value_bound(bytes@.subrange(pos as int, pos + 8));
        lemma_byte_range_values();
    }
    Ok((le_u64_at(bytes, pos), pos + 8))
}

/// Reads the opcode that starts at `pos`, and gives it with the position that
/// follows it.
pub fn read_opcode(bytes: &[u8], pos: usize) -> (res: Result<(Opcode, usize)>)
    requires
        pos <= bytes@.len(),
    ensures
        res == (match decode_opcode(bytes@.subrange(pos as int, bytes@.len() as int)) {
            Ok((op, n)) => Ok((op, (pos + n) as usize)),
            Err(e) => Err(e),
        }),
{
    if pos >= bytes.len() {
        return Err(Error::IO);
    }
    let tag = bytes[pos];
    let p = pos + 1;
    let ghost s = bytes@.subrange(pos as int, bytes@.len() as int);
    proof {
        lemma_le_bytes_one(tag);
        assert(s[0] == tag);
    }
    if tag == opcode::LOAD_FUN {
        proof { if bytes@.len() - p >= 4 { assert(s.subrange(1, 1 + 4 as int) =~= bytes@.subrange(p as int, p + 4)); } }
        let (x, q) = read_operand_u32(bytes, p)?;
        Ok((Opcode::load_fun(x), q))
    } else if tag == opcode::BUNDLE {
        proof { if bytes@.len() - p >= 1 { assert(s.subrange(1, 1 + 1 as int) =~= bytes@.subrange(p as int, p + 1)); } }
        let (x, q) = read_operand_u8(bytes, p)?;
        Ok((Opcode::bundle(x), q))
    } else if tag == opcode::BUNDLE_BIG {
        proof { if bytes@.len() - p >= 8 { assert(s.subrange(1, 1 + 8 as int) =~= bytes@.subrange(p as int, p + 8)); } }
        let (x, q) = read_operand_u64(bytes, p)?;
        Ok((Opcode::bundle_big(x), q))
    } else if tag == opcode::INDEX_DUP {
        proof { if bytes@.len() - p >= 1 { assert(s.subrange(1, 1 + 1 as int) =~= bytes@.subrange(p as int, p + 1)); } }
        let (x, q) = read_operand_u8(bytes, p)?;
        Ok((Opcode::index_dup(x), q))
    } else if tag == opcode::INDEX_BIG_DUP {
        proof { if bytes@.len() - p >= 8 { assert(s.subrange(1, 1 + 8 as int) =~= bytes@.subrange(p as int, p + 8)); } }
        let (x, q) = read_operand_u64(bytes, p)?;
        Ok((Opcode::index_big_dup(x), q))
    } else if tag == opcode::INDEX {
        proof { if bytes@.len() - p >= 1 { assert(s.subrange(1, 1 + 1 as int) =~= bytes@.subrange(p as int, p + 1)); } }
        let (x, q) = read_operand_u8(bytes, p)?;
        Ok((Opcode::index(x), q))
    } else if tag == opcode::INDEX_BIG {
        proof { if bytes@.len() - p >= 8 { assert(s.subrange(1, 1 + 8 as int) =~= bytes@.subrange(p as int, p + 8)); } }
        let (x, q) = read_operand_u64(bytes, p)?;
        Ok((Opcode::index_big(x), q))
    } else if tag == opcode::SPILL {
        proof { if bytes@.len() - p >= 2 { assert(s.subrange(1, 1 + 2 as int) =~= bytes@.subrange(p as int, p + 2)); } }
        let (x, q) = read_operand_u16(bytes, p)?;
        Ok((Opcode::spill(x), q))
    } else if tag == opcode::ADD {
        Ok((Opcode::add, p))
    } else if tag == opcode::SUB {
        Ok((Opcode::sub, p))
    } else if tag == opcode::MUL {
        Ok((Opcode::mul, p))
    } else if tag == opcode::DIV {
        Ok((Opcode::div, p))
    } else if tag == opcode::MODULO {
        Ok((Opcode::modulo, p))
    } else if tag == opcode::AND {
        Ok((Opcode::and, p))
    } else if tag == opcode::OR {
        Ok((Opcode::or, p))
    } else if tag == opcode::XOR {
        Ok((Opcode::xor, p))
    } else if tag == opcode::POW {
        Ok((Opcode::pow, p))
    } else if tag == opcode::EXP {
        Ok((Opcode::exp, p))
    } else if tag == opcode::LN {
        Ok((Opcode::ln, p))
    } else if tag == opcode::POS {
        Ok((Opcode::pos, p))
    } else if tag == opcode::NEG {
        Ok((Opcode::neg, p))
    } else if tag == opcode::NOT {
        Ok((Opcode::not, p))
    } else if tag == opcode::EQ {
        Ok((Opcode::eq, p))
    } else if tag == opcode::NE {
        Ok((Opcode::ne, p))
    } else if tag == opcode::LT {
        Ok((Opcode::lt, p))
    } else if tag == opcode::LE {
        Ok((Opcode::le, p))
    } else if tag == opcode::GT {
        Ok((Opcode::gt, p))
    } else if tag == opcode::GE {
        Ok((Opcode::ge, p))
    } else if tag == opcode::SIN {
        Ok((Opcode::sin, p))
    } else if tag == opcode::COS {
        Ok((Opcode::cos, p))
    } else if tag == opcode::TAN {
        Ok((Opcode::tan, p))
    } else if tag == opcode::ASIN {
        Ok((Opcode::asin, p))
    } else if tag == opcode::ACOS {
        Ok((Opcode::acos, p))
    } else if tag == opcode::ATAN {
        Ok((Opcode::atan, p))
    } else if tag == opcode::LOAD_CONST {
        proof { if bytes@.len() - p >= 2 { assert(s.subrange(1, 1 + 2 as int) =~= bytes@.subrange(p as int, p + 2)); } }
        let (x, q) = read_operand_u16(bytes, p)?;
        Ok((Opcode::load_const(x), q))
    } else if tag == opcode::LOAD_LOCAL {
        proof { if bytes@.len() - p >= 1 { assert(s.subrange(1, 1 + 1 as int) =~= bytes@.subrange(p as int, p + 1)); } }
        let (x, q) = read_operand_u8(bytes, p)?;
        Ok((Opcode::load_local(x), q))
    } else if tag == opcode::SET_LOCAL {
        proof { if bytes@.len() - p >= 1 { assert(s.subrange(1, 1 + 1 as int) =~= bytes@.subrange(p as int, p + 1)); } }
        let (x, q) = read_operand_u8(bytes, p)?;
        Ok((Opcode::set_local(x), q))
    } else if tag == opcode::LOAD_NIL {
        Ok((Opcode::load_nil, p))
    } else if tag == opcode::JUMP {
        proof { if bytes@.len() - p >= 4 { assert(s.subrange(1, 1 + 4 as int) =~= bytes@.subrange(p as int, p + 4)); } }
        let (x, q) = read_operand_u32(bytes, p)?;
        Ok((Opcode::jump(x), q))
    } else if tag == opcode::JUMP_IF {
        proof { if bytes@.len() - p >= 4 { assert(s.subrange(1, 1 + 4 as int) =~= bytes@.subrange(p as int, p + 4)); } }
        let (x, q) = read_operand_u32(bytes, p)?;
        Ok((Opcode::jump_if(x), q))
    } else if tag == opcode::JUMP_IF_NOT {
        proof { if bytes@.len() - p >= 4 { assert(s.subrange(1, 1 + 4 as int) =~= bytes@.subrange(p as int, p + 4)); } }
        let (x, q) = read_operand_u32(bytes, p)?;
        Ok((Opcode::jump_if_not(x), q))
    } else if tag == opcode::JUMP_EQ {
        proof { if bytes@.len() - p >= 4 { assert(s.subrange(1, 1 + 4 as int) =~= bytes@.subrange(p as int, p + 4)); } }
        let (x, q) = read_operand_u32(bytes, p)?;
        Ok((Opcode::jump_eq(x), q))
    } else if tag == opcode::JUMP_NE {
        proof { if bytes@.len() - p >= 4 { assert(s.subrange(1, 1 + 4 as int) =~= bytes@.subrange(p as int, p + 4)); } }
        let (x, q) = read_operand_u32(bytes, p)?;
        Ok((Opcode::jump_ne(x), q))
    } else if tag == opcode::DO_FRAME {
        Ok((Opcode::do_frame, p))
    } else if tag == opcode::END_FRAME {
        Ok((Opcode::end_frame, p))
    } else if tag == opcode::CALL {
        proof { if bytes@.len() - p >= 1 { assert(s.subrange(1, 1 + 1 as int) =~= bytes@.subrange(p as int, p + 1)); } }
        let (x, q) = read_operand_u8(bytes, p)?;
        Ok((Opcode::call(x), q))
    } else if tag == opcode::RET {
        Ok((Opcode::ret, p))
    } else if tag == opcode::POP {
        Ok((Opcode::pop, p))
    } else if tag == opcode::POP_OFFSET {
        proof { if bytes@.len() - p >= 2 { assert(s.subrange(1, 1 + 2 as int) =~= bytes@.subrange(p as int, p + 2)); } }
        let (x, q) = read_operand_u16(bytes, p)?;
        Ok((Opcode::pop_offset(x), q))
    } else if tag == opcode::DUP {
        Ok((Opcode::dup, p))
    } else if tag == opcode::PANIC {
        Ok((Opcode::panic, p))
    } else {
        Err(Error::IllegalOpcode(tag))
    }
}

} // verus!
