//! Reading a whole bytecode file back into its parts: the constant pool, the
//! function table, and the code as a list of opcodes with their offsets.

use vstd::prelude::*;
use std::collections::BTreeMap;
use super::error::{Error, Result};
use super::opcode::{Opcode, opcode_tag, opcode_operand};
use super::code::{encode_opcode, decode_opcode, read_opcode, lemma_opcode_roundtrip};
use super::le::{le_bytes, lemma_le_bytes_len};
use super::value::{Value, ValueModel, models};
use super::data::rest_from;
use super::sections::{
    decode_magic, read_magic, decode_constant_pool, read_constant_pool, decode_function_table,
    read_function_table, table_text, lemma_decode_constant_pool_len, lemma_decode_function_table_len,
    magic_bytes, encode_constant_pool, encode_function_table, table_of, names_fit, lemma_magic_roundtrip,
    lemma_constant_pool_roundtrip, lemma_function_table_roundtrip,
};
use super::data::all_writable;

verus! {

/// An opcode that decodes takes its tag byte and its operand, and no more
/// than there is.
pub proof fn lemma_decode_opcode_len(s: Seq<u8>)
    ensures
        decode_opcode(s) matches Ok((_, n)) ==> 1 <= n <= s.len(),
{
}

/// What the code `s` decodes to: each opcode with its offset, counted from
/// `start`, up to the end of `s`; or the first error met.
pub open spec fn decode_code(s: Seq<u8>, start: nat) -> Result<Seq<(nat, Opcode)>>
    decreases s.len(),
{
    if s.len() == 0 {
        Ok(Seq::empty())
    } else {
        match decode_opcode(s) {
            Err(e) => Err(e),
            Ok((op, n)) => {
                proof {
                    lemma_decode_opcode_len(s);
                }
                match decode_code(s.subrange(n as int, s.len() as int), start + n) {
                    Ok(rest) => Ok(seq![(start, op)] + rest),
                    Err(e) => Err(e),
                }
            },
        }
    }
}

/// The bytes of the opcodes `ops`, one after the other.
pub open spec fn encode_ops(ops: Seq<Opcode>) -> Seq<u8>
    decreases ops.len(),
{
    if ops.len() == 0 {
        Seq::empty()
    } else {
        encode_ops(ops.drop_last()) + encode_opcode(ops.last())
    }
}

/// The offset at which opcode `j` of `ops` starts.
pub open spec fn op_offset(ops: Seq<Opcode>, j: int) -> nat {
    encode_ops(ops.take(j)).len()
}

/// Each opcode of `ops` with its offset, counted from `start`.
pub open spec fn listing_of(ops: Seq<Opcode>, start: nat) -> Seq<(nat, Opcode)> {
    Seq::new(ops.len(), |j: int| (start + op_offset(ops, j), ops[j]))
}

/// Whether `op` is followed by a four-byte position that may be filled in
/// later: a jump's target or a function's position.
pub open spec fn patchable(op: Opcode) -> bool {
    match op {
        Opcode::load_fun(_) | Opcode::jump(_) | Opcode::jump_if(_) | Opcode::jump_if_not(_)
        | Opcode::jump_eq(_) | Opcode::jump_ne(_) => true,
        _ => false,
    }
}

/// `op` with the position that follows it replaced by `v`.
pub open spec fn with_target(op: Opcode, v: u32) -> Opcode {
    match op {
        Opcode::load_fun(_) => Opcode::load_fun(v),
        Opcode::jump(_) => Opcode::jump(v),
        Opcode::jump_if(_) => Opcode::jump_if(v),
        Opcode::jump_if_not(_) => Opcode::jump_if_not(v),
        Opcode::jump_eq(_) => Opcode::jump_eq(v),
        Opcode::jump_ne(_) => Opcode::jump_ne(v),
        _ => op,
    }
}

/// Whether the four bytes at `at` are the position that follows opcode `j`
/// of `ops`, one that may be filled in.
pub open spec fn slot_of(ops: Seq<Opcode>, j: int, at: nat) -> bool {
    0 <= j < ops.len() && patchable(ops[j]) && op_offset(ops, j) + 1 == at
}

/// The bytes of two runs of opcodes are those of each, one after the other.
pub proof fn lemma_encode_ops_concat(a: Seq<Opcode>, b: Seq<Opcode>)
    ensures
        encode_ops(a + b) == encode_ops(a) + encode_ops(b),
    decreases b.len(),
{
    if b.len() == 0 {
        assert(a + b =~= a);
        assert(encode_ops(a) + encode_ops(b) =~= encode_ops(a));
    } else {
        lemma_encode_ops_concat(a, b.drop_last());
        assert((a + b).drop_last() =~= a + b.drop_last());
        assert((a + b).last() == b.last());
        assert(encode_ops(a + b) =~= encode_ops(a) + encode_ops(b));
    }
}

/// A single opcode's run is its bytes.
pub proof fn lemma_encode_ops_single(x: Opcode)
    ensures
        encode_ops(seq![x]) == encode_opcode(x),
{
    let one = seq![x];
    assert(one.drop_last() =~= Seq::<Opcode>::empty());
    assert(one.last() == x);
    assert(encode_ops(one.drop_last()) == Seq::<u8>::empty());
    assert(encode_ops(one) =~= encode_opcode(x));
}

/// Every opcode takes its tag byte and its operand.
pub proof fn lemma_encode_opcode_len(op: Opcode)
    ensures
        encode_opcode(op).len() == 1 + opcode_operand(op).0,
        patchable(op) ==> opcode_operand(op).0 == 4,
{
    lemma_le_bytes_len(opcode_operand(op).1, opcode_operand(op).0);
}

/// Runs of opcodes whose opcodes take the same room one for one take the
/// same room.
pub proof fn lemma_encode_ops_len_eq(a: Seq<Opcode>, b: Seq<Opcode>)
    requires
        a.len() == b.len(),
        forall|i: int| 0 <= i < a.len() ==> encode_opcode(#[trigger] a[i]).len() == encode_opcode(b[i]).len(),
    ensures
        encode_ops(a).len() == encode_ops(b).len(),
    decreases a.len(),
{
    if a.len() > 0 {
        lemma_encode_ops_len_eq(a.drop_last(), b.drop_last());
        assert(encode_opcode(a[a.len() - 1]).len() == encode_opcode(b[b.len() - 1]).len());
    }
}

/// The code made of whole opcodes decodes back to those opcodes, each with
/// its offset.
pub proof fn lemma_decode_ops(ops: Seq<Opcode>, start: nat)
    requires
        readable(ops),
    ensures
        decode_code(encode_ops(ops), start) == Ok::<Seq<(nat, Opcode)>, Error>(listing_of(ops, start)),
    decreases ops.len(),
{
    if ops.len() == 0 {
        assert(listing_of(ops, start) =~= Seq::<(nat, Opcode)>::empty());
    } else {
        let first = ops[0];
        let rest = ops.drop_first();
        assert(ops =~= seq![first] + rest);
        lemma_encode_ops_concat(seq![first], rest);
        lemma_encode_ops_single(first);
        let s = encode_ops(ops);
        lemma_opcode_roundtrip(first, encode_ops(rest));
        let n = encode_opcode(first).len();
        lemma_encode_opcode_len(first);
        assert(s.subrange(n as int, s.len() as int) =~= encode_ops(rest));
        lemma_decode_ops(rest, start + n);
        assert forall|j: int| 0 <= j < ops.len() implies
            #[trigger] listing_of(ops, start)[j] == (seq![(start, first)] + listing_of(rest, start + n))[j] by {
            if j == 0 {
                assert(ops.take(0) =~= Seq::<Opcode>::empty());
            } else {
                assert(ops.take(j) =~= seq![first] + rest.take(j - 1));
                lemma_encode_ops_concat(seq![first], rest.take(j - 1));
            }
        }
        assert(listing_of(ops, start) =~= seq![(start, first)] + listing_of(rest, start + n));
    }
}

/// Appending an opcode keeps the offsets of those before it.
pub proof fn lemma_op_offset_push(ops: Seq<Opcode>, op: Opcode, j: int)
    requires
        0 <= j <= ops.len(),
    ensures
        op_offset(ops.push(op), j) == op_offset(ops, j),
        j == ops.len() ==> op_offset(ops, j) == encode_ops(ops).len(),
{
    assert(ops.push(op).take(j) =~= ops.take(j));
    if j == ops.len() {
        assert(ops.take(j) =~= ops);
    }
}

/// Filling in the position that follows a patchable opcode changes those four
/// bytes only, and keeps every opcode's offset and kind.
pub proof fn lemma_patch_ops(ops: Seq<Opcode>, j: int, v: u32)
    requires
        0 <= j < ops.len(),
        patchable(ops[j]),
    ensures
        ({
            let at = op_offset(ops, j) + 1;
            let after = ops.update(j, with_target(ops[j], v));
            let s = encode_ops(ops);
            &&& at + 4 <= s.len()
            &&& encode_ops(after) == s.subrange(0, at as int) + le_bytes(v as nat, 4) + s.subrange((at + 4) as int, s.len() as int)
            &&& forall|k: int| 0 <= k <= ops.len() ==> #[trigger] op_offset(after, k) == op_offset(ops, k)
            &&& forall|k: int| 0 <= k < ops.len() ==> patchable(#[trigger] after[k]) == patchable(ops[k])
        }),
{
    let x = ops[j];
    let y = with_target(x, v);
    let after = ops.update(j, y);
    let a = ops.take(j);
    let b = ops.subrange(j + 1, ops.len() as int);
    assert(ops =~= a + seq![x] + b);
    assert(after =~= a + seq![y] + b);
    lemma_encode_ops_concat(a + seq![x], b);
    lemma_encode_ops_concat(a, seq![x]);
    lemma_encode_ops_concat(a + seq![y], b);
    lemma_encode_ops_concat(a, seq![y]);
    lemma_encode_ops_single(x);
    lemma_encode_ops_single(y);
    lemma_encode_opcode_len(x);
    lemma_encode_opcode_len(y);
    assert(opcode_tag(y) == opcode_tag(x));
    assert(opcode_operand(y) == (4nat, v as nat));
    let s = encode_ops(ops);
    let at = encode_ops(a).len() + 1;
    assert(encode_ops(after) =~= s.subrange(0, at as int) + le_bytes(v as nat, 4) + s.subrange((at + 4) as int, s.len() as int));
    assert forall|k: int| 0 <= k <= ops.len() implies #[trigger] op_offset(after, k) == op_offset(ops, k) by {
        assert forall|i: int| 0 <= i < after.take(k).len() implies
            encode_opcode(#[trigger] after.take(k)[i]).len() == encode_opcode(ops.take(k)[i]).len() by {
            lemma_encode_opcode_len(ops[i]);
            lemma_encode_opcode_len(after[i]);
        }
        lemma_encode_ops_len_eq(after.take(k), ops.take(k));
    }
}

/// The position that a patchable opcode holds.
pub open spec fn op_target(op: Opcode) -> nat {
    match op {
        Opcode::load_fun(v) => v as nat,
        Opcode::jump(v) => v as nat,
        Opcode::jump_if(v) => v as nat,
        Opcode::jump_if_not(v) => v as nat,
        Opcode::jump_eq(v) => v as nat,
        Opcode::jump_ne(v) => v as nat,
        _ => 0,
    }
}

/// Whether `p` is where an opcode of `ops` starts, or where they end.
pub open spec fn is_boundary(ops: Seq<Opcode>, p: nat) -> bool {
    exists|k: int| 0 <= k <= ops.len() && #[trigger] op_offset(ops, k) == p
}

/// Whether every position that a jump or a function load of `ops` holds is
/// where an opcode starts, or where the opcodes end.
pub open spec fn targets_ok(ops: Seq<Opcode>) -> bool {
    &&& forall|j: int| 0 <= j < ops.len() && patchable(#[trigger] ops[j]) ==> is_boundary(ops, op_target(ops[j]))
    &&& readable(ops)
}

/// Whether each of `ops` is one that reading code takes: none is `index_dyn`.
pub open spec fn readable(ops: Seq<Opcode>) -> bool {
    forall|j: int| 0 <= j < ops.len() ==> !(#[trigger] ops[j] is index_dyn)
}

/// The start and the end of the opcodes are boundaries.
pub proof fn lemma_boundary_ends(ops: Seq<Opcode>)
    ensures
        is_boundary(ops, 0),
        is_boundary(ops, encode_ops(ops).len()),
{
    assert(ops.take(0) =~= Seq::<Opcode>::empty());
    assert(op_offset(ops, 0) == 0);
    assert(ops.take(ops.len() as int) =~= ops);
    assert(op_offset(ops, ops.len() as int) == encode_ops(ops).len());
}

/// Appending an opcode keeps every boundary.
pub proof fn lemma_boundary_push(ops: Seq<Opcode>, op: Opcode, p: nat)
    requires
        is_boundary(ops, p),
    ensures
        is_boundary(ops.push(op), p),
{
    let k = choose|k: int| 0 <= k <= ops.len() && #[trigger] op_offset(ops, k) == p;
    lemma_op_offset_push(ops, op, k);
}

/// Appending an opcode that holds no position, or one at a boundary, keeps
/// the positions at boundaries.
pub proof fn lemma_targets_push(ops: Seq<Opcode>, op: Opcode)
    requires
        targets_ok(ops),
        patchable(op) ==> is_boundary(ops, op_target(op)),
        !(op is index_dyn),
    ensures
        targets_ok(ops.push(op)),
{
    let after = ops.push(op);
    assert forall|j: int| 0 <= j < after.len() && patchable(#[trigger] after[j]) implies is_boundary(after, op_target(after[j])) by {
        if j < ops.len() {
            assert(after[j] == ops[j]);
            lemma_boundary_push(ops, op, op_target(ops[j]));
        } else {
            lemma_boundary_push(ops, op, op_target(op));
        }
    }
}

/// Filling in a position with a boundary keeps every boundary and the
/// positions at boundaries.
pub proof fn lemma_targets_patch(ops: Seq<Opcode>, j: int, v: u32)
    requires
        0 <= j < ops.len(),
        patchable(ops[j]),
        targets_ok(ops),
        is_boundary(ops, v as nat),
    ensures
        targets_ok(ops.update(j, with_target(ops[j], v))),
        forall|p: nat| #[trigger] is_boundary(ops.update(j, with_target(ops[j], v)), p) == is_boundary(ops, p),
{
    let after = ops.update(j, with_target(ops[j], v));
    lemma_patch_ops(ops, j, v);
    assert forall|p: nat| #[trigger] is_boundary(after, p) == is_boundary(ops, p) by {
        if is_boundary(after, p) {
            let k = choose|k: int| 0 <= k <= after.len() && #[trigger] op_offset(after, k) == p;
            assert(op_offset(ops, k) == p);
        }
        if is_boundary(ops, p) {
            let k = choose|k: int| 0 <= k <= ops.len() && #[trigger] op_offset(ops, k) == p;
            assert(op_offset(after, k) == p);
        }
    }
    assert forall|i: int| 0 <= i < after.len() && patchable(#[trigger] after[i]) implies is_boundary(after, op_target(after[i])) by {
        if i == j {
            assert(op_target(after[i]) == v as nat);
        } else {
            assert(after[i] == ops[i]);
        }
    }
}

/// What a whole bytecode file `s` decodes to: its constants, its function
/// table and its code, each opcode with its offset from the start of the
/// code; or the first error met.
pub open spec fn decode_file(s: Seq<u8>) -> Result<(Seq<ValueModel>, Map<u32, Seq<char>>, Seq<(nat, Opcode)>)> {
    match decode_magic(s) {
        Err(e) => Err(e),
        Ok(a) => match decode_constant_pool(s.subrange(a as int, s.len() as int)) {
            Err(e) => Err(e),
            Ok((constants, b)) => match decode_function_table(s.subrange((a + b) as int, s.len() as int)) {
                Err(e) => Err(e),
                Ok((table, c)) => match decode_code(s.subrange((a + b + c) as int, s.len() as int), 0) {
                    Err(e) => Err(e),
                    Ok(code) => Ok((constants, table, code)),
                },
            },
        },
    }
}

/// Reading back a whole file that was written gives what was written: its
/// constants, the table its entries build, and its opcodes, each with its
/// offset in the code.
pub proof fn lemma_file_roundtrip(constants: Seq<ValueModel>, entries: Seq<(u32, Seq<char>)>, ops: Seq<Opcode>)
    requires
        constants.len() <= 0xffff,
        all_writable(constants),
        entries.len() <= 0xffff,
        names_fit(entries),
        readable(ops),
    ensures
        decode_file(magic_bytes() + encode_constant_pool(constants) + encode_function_table(entries) + encode_ops(ops))
            == Ok::<(Seq<ValueModel>, Map<u32, Seq<char>>, Seq<(nat, Opcode)>), Error>(
                (constants, table_of(entries), listing_of(ops, 0))),
{
    let pool = encode_constant_pool(constants);
    let table = encode_function_table(entries);
    let code = encode_ops(ops);
    let s = magic_bytes() + pool + table + code;
    assert(s =~= magic_bytes() + (pool + table + code));
    lemma_magic_roundtrip(pool + table + code);
    assert(s.subrange(8, s.len() as int) =~= pool + (table + code));
    lemma_constant_pool_roundtrip(constants, table + code);
    let b = pool.len();
    assert(s.subrange((8 + b) as int, s.len() as int) =~= table + code);
    lemma_function_table_roundtrip(entries, code);
    let c = table.len();
    assert(s.subrange((8 + b + c) as int, s.len() as int) =~= code);
    lemma_decode_ops(ops, 0);
}

/// The parts of a bytecode file.
pub struct Listing {
    pub constants: Vec<Value>,
    pub function_table: BTreeMap<u32, String>,
    /// Each opcode of the code, with its offset from the start of the code.
    pub code: Vec<(usize, Opcode)>,
}

/// The opcodes of a listing with their offsets taken as numbers.
pub open spec fn code_model(code: Seq<(usize, Opcode)>) -> Seq<(nat, Opcode)> {
    code.map_values(|p: (usize, Opcode)| (p.0 as nat, p.1))
}

/// `prefix` in front of what `r` decoded to, or the error it met.
pub open spec fn after(prefix: Seq<(nat, Opcode)>, r: Result<Seq<(nat, Opcode)>>) -> Result<Seq<(nat, Opcode)>> {
    match r {
        Ok(rest) => Ok(prefix + rest),
        Err(e) => Err(e),
    }
}

/// Reads a whole bytecode file into its parts; it fails with the first error
/// met, as reading it part by part does.
pub fn read_listing(bytes: &[u8]) -> (res: Result<Listing>)
    ensures
        match decode_file(bytes@) {
            Ok((constants, table, code)) => res matches Ok(l) && models(l.constants@) == constants
                && table_text(l.function_table) == table && code_model(l.code@) == code,
            Err(e) => res == Err::<Listing, Error>(e),
        },
{
    proof {
        assert(rest_from(bytes@, 0) =~= bytes@);
    }
    let a = match read_magic(bytes, 0) {
        Ok(a) => a,
        Err(e) => return Err(e),
    };
    let (constants, b) = match read_constant_pool(bytes, a) {
        Ok(r) => r,
        Err(e) => return Err(e),
    };
    proof {
        lemma_decode_constant_pool_len(rest_from(bytes@, a as int));
    }
    let (function_table, start) = match read_function_table(bytes, b) {
        Ok(r) => r,
        Err(e) => return Err(e),
    };
    proof {
        lemma_decode_function_table_len(rest_from(bytes@, b as int));
    }
    let ghost whole = rest_from(bytes@, start as int);
    let mut code: Vec<(usize, Opcode)> = Vec::new();
    let mut pos = start;
    proof {
        assert(bytes@.subrange(a as int, bytes@.len() as int) == rest_from(bytes@, a as int));
        assert(bytes@.subrange(b as int, bytes@.len() as int) == rest_from(bytes@, b as int));
        assert(code_model(code@) =~= Seq::<(nat, Opcode)>::empty());
        assert(after(Seq::empty(), decode_code(whole, 0)) =~~= decode_code(whole, 0));
    }
    while pos < bytes.len()
        invariant
            start <= pos <= bytes@.len(),
            whole == rest_from(bytes@, start as int),
            decode_file(bytes@) == (match decode_code(whole, 0) {
                Ok(c) => Ok((models(constants@), table_text(function_table), c)),
                Err(e) => Err(e),
            }),
            decode_code(whole, 0) == after(code_model(code@), decode_code(rest_from(bytes@, pos as int), (pos - start) as nat)),
        decreases bytes@.len() - pos,
    {
        let ghost s = rest_from(bytes@, pos as int);
        let (op, next) = match read_opcode(bytes, pos) {
            Ok(r) => r,
            Err(e) => {
                proof {
                    assert(decode_code(s, (pos - start) as nat) == Err::<Seq<(nat, Opcode)>, Error>(e));
                }
                return Err(e);
            },
        };
        proof {
            lemma_decode_opcode_len(s);
            let n = (next - pos) as nat;
            assert(s.subrange(n as int, s.len() as int) =~= rest_from(bytes@, next as int));
            let tail = decode_code(rest_from(bytes@, next as int), (next - start) as nat);
            let item = ((pos - start) as nat, op);
            assert(decode_code(s, (pos - start) as nat) == after(seq![item], tail));
            assert(code_model(code@.push(((pos - start) as usize, op))) =~= code_model(code@).push(item));
            match tail {
                Ok(rest) => {
                    assert(code_model(code@) + (seq![item] + rest) =~= code_model(code@).push(item) + rest);
                },
                Err(_) => {},
            }
        }
        code.push((pos - start, op));
        pos = next;
    }
    proof {
        assert(rest_from(bytes@, pos as int) =~= Seq::<u8>::empty());
        assert(code_model(code@) + Seq::<(nat, Opcode)>::empty() =~= code_model(code@));
    }
    Ok(Listing { constants, function_table, code })
}

} // verus!
