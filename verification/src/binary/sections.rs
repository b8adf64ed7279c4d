//! The sections of a bytecode file: magic bytes, constant pool and function
//! table.

use vstd::prelude::*;
use std::collections::{BTreeMap, HashMap};
use super::error::{Error, Result};
use super::le::{
    le_value, le_bytes, byte_range, append_bytes, le_u16_bytes, le_u32_bytes, le_u16_at, le_u32_at,
    lemma_byte_range_values, lemma_le_bytes_len, lemma_le_value_of_bytes, lemma_le_value_bound,
};
use super::value::{Value, ValueModel, models, lemma_models_len};
use super::data::{
    rest_from, encode_string, decode_string, encode_values, decode_values, all_writable, read_values,
    write_values, read_string, write_string, string_read, lemma_string_roundtrip, lemma_values_roundtrip,
    lemma_decode_values_len,
};
use vstd::utf8::encode_utf8;
use vstd::std_specs::iter::IteratorSpec;

verus! {

/// The bytes every bytecode file starts with: "exemarin".
pub open spec fn magic_bytes() -> Seq<u8> {
    seq![0x65u8, 0x78, 0x65, 0x6d, 0x61, 0x72, 0x69, 0x6e]
}

/// What checking the magic bytes at the start of `s` gives: the number of
/// bytes they take, or the error met.
pub open spec fn decode_magic(s: Seq<u8>) -> Result<nat> {
    if s.len() < 8 {
        Err(Error::IO)
    } else if s.take(8) == magic_bytes() {
        Ok(8)
    } else {
        Err(Error::MagicMismatch)
    }
}

/// Checks the magic bytes at `pos`, and gives the position that follows them.
pub fn read_magic(bytes: &[u8], pos: usize) -> (res: Result<usize>)
    requires
        pos <= bytes@.len(),
    ensures
        res == (match decode_magic(rest_from(bytes@, pos as int)) {
            Ok(n) => Ok((pos + n) as usize),
            Err(e) => Err(e),
        }),
{
    let ghost s = rest_from(bytes@, pos as int);
    if bytes.len() - pos < 8 {
        return Err(Error::IO);
    }
    let expected: [u8; 8] = [0x65, 0x78, 0x65, 0x6d, 0x61, 0x72, 0x69, 0x6e];
    let mut i: usize = 0;
    while i < 8
        invariant
            pos + 8 <= bytes.len(),
            s == rest_from(bytes@, pos as int),
            0 <= i <= 8,
            expected@ == magic_bytes(),
            forall|j: int| 0 <= j < i ==> bytes@[pos + j] == magic_bytes()[j],
        decreases 8 - i,
    {
        if bytes[pos + i] != expected[i] {
            proof {
                assert(s.take(8)[i as int] != magic_bytes()[i as int]);
            }
            return Err(Error::MagicMismatch);
        }
        i = i + 1;
    }
    proof {
        assert(s.take(8) =~= magic_bytes());
    }
    Ok(pos + 8)
}

/// Writes the magic bytes at the end of `w`.
pub fn write_magic(w: &mut Vec<u8>)
    ensures
        final(w)@ == old(w)@ + magic_bytes(),
{
    let magic: [u8; 8] = [0x65, 0x78, 0x65, 0x6d, 0x61, 0x72, 0x69, 0x6e];
    append_bytes(w, &magic);
}

/// Reading the magic bytes back after writing them succeeds.
pub proof fn lemma_magic_roundtrip(rest: Seq<u8>)
    ensures
        decode_magic(magic_bytes() + rest) == Ok::<nat, Error>(8),
{
    assert((magic_bytes() + rest).take(8) =~= magic_bytes());
}

/// The bytes that stand for a constant pool: the number of constants as two
/// little-endian bytes, then each constant.
pub open spec fn encode_constant_pool(constants: Seq<ValueModel>) -> Seq<u8> {
    le_bytes(constants.len(), 2) + encode_values(constants)
}

/// What reading a constant pool from the start of `s` gives: the constants and
/// the number of bytes they take, or the first error met.
pub open spec fn decode_constant_pool(s: Seq<u8>) -> Result<(Seq<ValueModel>, nat)> {
    if s.len() < 2 {
        Err(Error::IO)
    } else {
        match decode_values(s.subrange(2, s.len() as int), le_value(s.take(2))) {
            Ok((constants, n)) => Ok((constants, 2 + n)),
            Err(e) => Err(e),
        }
    }
}

/// Reads the constant pool that starts at `pos`.
pub fn read_constant_pool(bytes: &[u8], pos: usize) -> (res: Result<(Vec<Value>, usize)>)
    requires
        pos <= bytes@.len(),
    ensures
        match decode_constant_pool(rest_from(bytes@, pos as int)) {
            Ok((ms, n)) => res matches Ok((vs, q)) && models(vs@) == ms && q == pos + n,
            Err(e) => res == Err::<(Vec<Value>, usize), Error>(e),
        },
{
    let ghost s = rest_from(bytes@, pos as int);
    if bytes.len() - pos < 2 {
        return Err(Error::IO);
    }
    let count = le_u16_at(bytes, pos) as usize;
    proof {
        assert(s.take(2) =~= bytes@.subrange(pos as int, pos + 2));
        assert(s.subrange(2, s.len() as int) =~= rest_from(bytes@, pos + 2));
    }
    read_values(bytes, pos + 2, count)
}

/// Writes the bytes that stand for the constant pool `constants` at the end
/// of `w`; a pool holds at most 65535 constants.
pub fn write_constant_pool(w: &mut Vec<u8>, constants: &[Value])
    requires
        constants@.len() <= 0xffff,
        all_writable(models(constants@)),
    ensures
        final(w)@ == old(w)@ + encode_constant_pool(models(constants@)),
{
    proof {
        lemma_models_len(constants@);
    }
    append_bytes(w, &le_u16_bytes(constants.len() as u16));
    write_values(w, constants);
    proof {
        assert(final(w)@ =~= old(w)@ + encode_constant_pool(models(constants@)));
    }
}

/// Reading back a written constant pool gives its constants, whatever follows.
pub proof fn lemma_constant_pool_roundtrip(constants: Seq<ValueModel>, rest: Seq<u8>)
    requires
        constants.len() <= 0xffff,
        all_writable(constants),
    ensures
        decode_constant_pool(encode_constant_pool(constants) + rest)
            == Ok::<(Seq<ValueModel>, nat), Error>((constants, encode_constant_pool(constants).len())),
{
    let s = encode_constant_pool(constants) + rest;
    lemma_byte_range_values();
    lemma_le_bytes_len(constants.len(), 2);
    lemma_le_value_of_bytes(constants.len(), 2);
    assert(s.take(2) =~= le_bytes(constants.len(), 2));
    assert(s.subrange(2, s.len() as int) =~= encode_values(constants) + rest);
    lemma_values_roundtrip(constants, rest);
}


/// The bytes that stand for one entry of the function table: the function's
/// code position as four little-endian bytes, then its name.
pub open spec fn encode_function_info(pos: u32, name: Seq<char>) -> Seq<u8> {
    le_bytes(pos as nat, 4) + encode_string(name)
}

/// What reading a function table entry from the start of `s` gives: the
/// position and name, and the number of bytes they take, or the error met.
pub open spec fn decode_function_info(s: Seq<u8>) -> Result<((u32, Seq<char>), nat)> {
    if s.len() < 4 {
        Err(Error::IO)
    } else {
        match decode_string(s.subrange(4, s.len() as int)) {
            Ok((name, n)) => Ok(((le_value(s.take(4)) as u32, name), 4 + n)),
            Err(e) => Err(e),
        }
    }
}

/// The bytes that stand for each entry of `entries`, one after the other.
pub open spec fn encode_function_infos(entries: Seq<(u32, Seq<char>)>) -> Seq<u8>
    decreases entries.len(),
{
    if entries.len() == 0 {
        Seq::empty()
    } else {
        encode_function_info(entries[0].0, entries[0].1) + encode_function_infos(entries.drop_first())
    }
}

/// What reading `count` function table entries from the start of `s` gives.
pub open spec fn decode_function_infos(s: Seq<u8>, count: nat) -> Result<(Seq<(u32, Seq<char>)>, nat)>
    decreases count,
{
    if count == 0 {
        Ok((Seq::empty(), 0))
    } else {
        match decode_function_info(s) {
            Err(e) => Err(e),
            Ok((first, n)) => match decode_function_infos(s.subrange(n as int, s.len() as int), (count - 1) as nat) {
                Ok((others, m)) => Ok((seq![first] + others, n + m)),
                Err(e) => Err(e),
            },
        }
    }
}

/// Table entries that decode take no more bytes than there are.
pub proof fn lemma_decode_function_infos_len(s: Seq<u8>, count: nat)
    ensures
        decode_function_infos(s, count) matches Ok((_, n)) ==> n <= s.len(),
    decreases count,
{
    if count > 0 {
        if let Ok((first, n)) = decode_function_info(s) {
            lemma_decode_function_infos_len(s.subrange(n as int, s.len() as int), (count - 1) as nat);
        }
    }
}

/// A constant pool that decodes takes no more bytes than there are.
pub proof fn lemma_decode_constant_pool_len(s: Seq<u8>)
    ensures
        decode_constant_pool(s) matches Ok((_, n)) ==> n <= s.len(),
{
    if s.len() >= 2 {
        lemma_decode_values_len(s.subrange(2, s.len() as int), le_value(s.take(2)));
    }
}

/// A function table that decodes takes no more bytes than there are.
pub proof fn lemma_decode_function_table_len(s: Seq<u8>)
    ensures
        decode_function_table(s) matches Ok((_, n)) ==> n <= s.len(),
{
    if s.len() >= 2 {
        lemma_decode_function_infos_len(s.subrange(2, s.len() as int), le_value(s.take(2)));
    }
}

/// A table whose bytes are fewer than a 64-bit length can count has names
/// short enough for a 64-bit length.
pub proof fn lemma_small_table_names_fit(entries: Seq<(u32, Seq<char>)>)
    requires
        encode_function_infos(entries).len() < 0x1_0000_0000_0000_0000,
    ensures
        names_fit(entries),
    decreases entries.len(),
{
    if entries.len() > 0 {
        let tail = entries.drop_first();
        lemma_le_bytes_len(entries[0].0 as nat, 4);
        lemma_le_bytes_len(encode_utf8(entries[0].1).len(), 8);
        lemma_small_table_names_fit(tail);
        assert forall|i: int| 0 <= i < entries.len() implies encode_utf8(#[trigger] entries[i].1).len() < 0x1_0000_0000_0000_0000 by {
            if i > 0 {
                assert(entries[i] == tail[i - 1]);
            }
        }
    }
}

/// The table that results from entering `entries` in order: a later entry for
/// a position replaces an earlier one.
pub open spec fn table_of(entries: Seq<(u32, Seq<char>)>) -> Map<u32, Seq<char>>
    decreases entries.len(),
{
    if entries.len() == 0 {
        Map::empty()
    } else {
        table_of(entries.drop_last()).insert(entries.last().0, entries.last().1)
    }
}

/// The bytes that stand for a function table that lists `entries`: their
/// number as two little-endian bytes, then each entry.
pub open spec fn encode_function_table(entries: Seq<(u32, Seq<char>)>) -> Seq<u8> {
    le_bytes(entries.len(), 2) + encode_function_infos(entries)
}

/// What reading a function table from the start of `s` gives: the table and
/// the number of bytes it takes, or the first error met.
pub open spec fn decode_function_table(s: Seq<u8>) -> Result<(Map<u32, Seq<char>>, nat)> {
    if s.len() < 2 {
        Err(Error::IO)
    } else {
        match decode_function_infos(s.subrange(2, s.len() as int), le_value(s.take(2))) {
            Ok((entries, n)) => Ok((table_of(entries), 2 + n)),
            Err(e) => Err(e),
        }
    }
}

/// A table with each name taken by its characters.
pub open spec fn table_text<M: View<V = Map<u32, String>>>(m: M) -> Map<u32, Seq<char>> {
    m@.map_values(|name: String| name@)
}

/// Whether `entries` lists the table `m`: each position once, with its name.
pub open spec fn lists_table(entries: Seq<(u32, Seq<char>)>, m: Map<u32, Seq<char>>) -> bool {
    &&& forall|i: int, j: int| 0 <= i < j < entries.len() ==> entries[i].0 != entries[j].0
    &&& forall|i: int| 0 <= i < entries.len() ==> m.contains_key(#[trigger] entries[i].0) && m[entries[i].0] == entries[i].1
    &&& forall|k: u32| m.contains_key(k) ==> exists|i: int| 0 <= i < entries.len() && #[trigger] entries[i].0 == k
}

/// Whether every name in `entries` is short enough for a 64-bit length.
pub open spec fn names_fit(entries: Seq<(u32, Seq<char>)>) -> bool {
    forall|i: int| 0 <= i < entries.len() ==> encode_utf8(#[trigger] entries[i].1).len() < 0x1_0000_0000_0000_0000
}

/// Reads the function table entry that starts at `pos`.
pub fn read_function_info(bytes: &[u8], pos: usize) -> (res: Result<((u32, String), usize)>)
    requires
        pos <= bytes@.len(),
    ensures
        match decode_function_info(rest_from(bytes@, pos as int)) {
            Ok(((p, name), n)) => res matches Ok(((q, text), next)) && q == p && text@ == name && next == pos + n,
            Err(e) => res == Err::<((u32, String), usize), Error>(e),
        },
{
    let ghost s = rest_from(bytes@, pos as int);
    if bytes.len() - pos < 4 {
        return Err(Error::IO);
    }
    let fun_pos = le_u32_at(bytes, pos);
    proof {
        assert(s.take(4) =~= bytes@.subrange(pos as int, pos + 4));
        assert(s.subrange(4, s.len() as int) =~= rest_from(bytes@, pos + 4));
    }
    let (name, next) = match read_string(bytes, pos + 4) {
        Ok(r) => r,
        Err(e) => return Err(e),
    };
    Ok(((fun_pos, name), next))
}

/// Writes the bytes that stand for the function table entry (`pos`, `name`) at
/// the end of `w`.
pub fn write_function_info(w: &mut Vec<u8>, pos: u32, name: &str)
    ensures
        final(w)@ == old(w)@ + encode_function_info(pos, name@),
{
    append_bytes(w, &le_u32_bytes(pos));
    write_string(w, name);
    proof {
        assert(final(w)@ =~= old(w)@ + encode_function_info(pos, name@));
    }
}

/// Reads the function table that starts at `pos`.
#[verifier::loop_isolation(false)]
pub fn read_function_table(bytes: &[u8], pos: usize) -> (res: Result<(BTreeMap<u32, String>, usize)>)
    requires
        pos <= bytes@.len(),
    ensures
        match decode_function_table(rest_from(bytes@, pos as int)) {
            Ok((m, n)) => res matches Ok((table, q)) && table_text(table) == m && q == pos + n,
            Err(e) => res == Err::<(BTreeMap<u32, String>, usize), Error>(e),
        },
{
    proof {
        super::keys::lemma_u32_keys_ordered();
    }
    let ghost s = rest_from(bytes@, pos as int);
    if bytes.len() - pos < 2 {
        return Err(Error::IO);
    }
    let count = le_u16_at(bytes, pos) as usize;
    let start = pos + 2;
    let ghost inner = rest_from(bytes@, start as int);
    proof {
        assert(s.take(2) =~= bytes@.subrange(pos as int, pos + 2));
        assert(s.subrange(2, s.len() as int) =~= inner);
    }
    let mut table: BTreeMap<u32, String> = BTreeMap::new();
    let ghost mut entries: Seq<(u32, Seq<char>)> = Seq::empty();
    let mut q = start;
    let mut i: usize = 0;
    proof {
        assert(table_text(table) =~= table_of(entries));
    }
    while i < count
        invariant
            start <= q <= bytes@.len(),
            0 <= i <= count,
            entries.len() == i,
            table_text(table) == table_of(entries),
            decode_function_infos(inner, count as nat) == (match decode_function_infos(rest_from(bytes@, q as int), (count - i) as nat) {
                Ok((others, m)) => Ok::<(Seq<(u32, Seq<char>)>, nat), Error>((entries + others, ((q - start) + m) as nat)),
                Err(e) => Err::<(Seq<(u32, Seq<char>)>, nat), Error>(e),
            }),
        decreases count - i,
    {
        let ghost here = rest_from(bytes@, q as int);
        let ((fun_pos, name), next) = match read_function_info(bytes, q) {
            Ok(r) => r,
            Err(e) => return Err(e),
        };
        let ghost entry = (fun_pos, name@);
        proof {
            let n = (next - q) as nat;
            assert(here.subrange(n as int, here.len() as int) =~= rest_from(bytes@, next as int));
            if let Ok((others, m)) = decode_function_infos(rest_from(bytes@, next as int), (count - i - 1) as nat) {
                assert(entries + (seq![entry] + others) =~= entries.push(entry) + others);
            }
            assert(entries.push(entry).drop_last() =~= entries);
        }
        table.insert(fun_pos, name);
        proof {
            entries = entries.push(entry);
            assert(table_text(table) =~= table_of(entries));
        }
        q = next;
        i = i + 1;
    }
    proof {
        assert(entries + Seq::<(u32, Seq<char>)>::empty() =~= entries);
    }
    Ok((table, q))
}


/// The entries of a table as position and name characters.
pub open spec fn entry_text(entries: Seq<(&u32, &String)>) -> Seq<(u32, Seq<char>)> {
    entries.map_values(|e: (&u32, &String)| (*e.0, e.1@))
}

proof fn lemma_encode_infos_snoc(entries: Seq<(u32, Seq<char>)>, i: int)
    requires
        0 <= i < entries.len(),
    ensures
        encode_function_infos(entries.take(i + 1))
            == encode_function_infos(entries.take(i)) + encode_function_info(entries[i].0, entries[i].1),
    decreases i,
{
    if i == 0 {
        let one = entries.take(1);
        assert(one.drop_first() =~= Seq::<(u32, Seq<char>)>::empty());
        assert(encode_function_infos(one.drop_first()) == Seq::<u8>::empty());
        assert(entries.take(0) =~= Seq::<(u32, Seq<char>)>::empty());
        assert(encode_function_infos(entries.take(0)) == Seq::<u8>::empty());
        assert(encode_function_infos(one) =~= encode_function_info(entries[0].0, entries[0].1));
    } else {
        let tail = entries.drop_first();
        lemma_encode_infos_snoc(tail, i - 1);
        assert(entries.take(i + 1).drop_first() =~= tail.take(i));
        assert(entries.take(i).drop_first() =~= tail.take(i - 1));
        assert(encode_function_infos(entries.take(i + 1)) =~= encode_function_infos(entries.take(i))
            + encode_function_info(entries[i].0, entries[i].1));
    }
}

/// Writes the bytes that stand for the function table `table` at the end of
/// `w`, its entries in the order in which the map hands them out; a table holds
/// at most 65535 entries.
pub fn write_function_table(w: &mut Vec<u8>, table: &HashMap<u32, String>)
    requires
        table@.len() <= 0xffff,
    ensures
        exists|entries: Seq<(u32, Seq<char>)>| {
            &&& lists_table(entries, table_text(*table))
            &&& entries.len() == table@.len()
            &&& final(w)@ == old(w)@ + encode_function_table(entries)
        },
{
    broadcast use vstd::std_specs::hash::group_hash_axioms;

    let count = table.len() as u16;
    append_bytes(w, &le_u16_bytes(count));
    let ghost start = w@;
    let ghost m = table_text(*table);
    let mut iter = table.iter();
    let ghost all = iter.remaining();
    let ghost entries = entry_text(all);
    proof {
        assert(entries.len() == all.len());
        assert forall|i: int| 0 <= i < entries.len() implies m.contains_key(#[trigger] entries[i].0) && m[entries[i].0] == entries[i].1 by {
            assert(table@.contains_key(*all[i].0));
        }
        assert forall|i: int, j: int| 0 <= i < j < entries.len() implies entries[i].0 != entries[j].0 by {
            if entries[i].0 == entries[j].0 {
                assert(table@.contains_key(*all[i].0));
                assert(table@.contains_key(*all[j].0));
                assert(all[i] == all[j]);
            }
        }
        assert forall|k: u32| m.contains_key(k) implies exists|i: int| 0 <= i < entries.len() && #[trigger] entries[i].0 == k by {
            assert(table@.contains_key(k));
            assert(all.contains((&k, &table@[k])));
            let i = choose|i: int| 0 <= i < all.len() && all[i] == (&k, &table@[k]);
            assert(entries[i].0 == k);
        }
        assert(lists_table(entries, m));
        assert(entries.len() == table@.len());
    }
    let ghost mut done: int = 0;
    for (fun_pos, name) in it: iter
        invariant
            it.seq() == all,
            done == it.index(),
            entries == entry_text(all),
            lists_table(entries, m),
            entries.len() == table@.len(),
            start == old(w)@ + le_bytes(table@.len(), 2),
            w@ == start + encode_function_infos(entries.take(done)),
    {
        proof {
            lemma_encode_infos_snoc(entries, done);
        }
        write_function_info(w, *fun_pos, name.as_str());
        proof {
            done = done + 1;
        }
    }
    proof {
        assert(done == entries.len());
        assert(entries.take(done) =~= entries);
        assert(final(w)@ =~= old(w)@ + encode_function_table(entries));
    }
}


/// Reading back a written function table entry gives it back, whatever follows.
pub proof fn lemma_function_info_roundtrip(pos: u32, name: Seq<char>, rest: Seq<u8>)
    requires
        encode_utf8(name).len() < 0x1_0000_0000_0000_0000,
    ensures
        decode_function_info(encode_function_info(pos, name) + rest)
            == Ok::<((u32, Seq<char>), nat), Error>(((pos, name), encode_function_info(pos, name).len())),
{
    let s = encode_function_info(pos, name) + rest;
    lemma_byte_range_values();
    lemma_le_bytes_len(pos as nat, 4);
    lemma_le_value_of_bytes(pos as nat, 4);
    assert(s.take(4) =~= le_bytes(pos as nat, 4));
    assert(s.subrange(4, s.len() as int) =~= encode_string(name) + rest);
    lemma_string_roundtrip(name, rest);
}

proof fn lemma_function_infos_roundtrip(entries: Seq<(u32, Seq<char>)>, rest: Seq<u8>)
    requires
        names_fit(entries),
    ensures
        decode_function_infos(encode_function_infos(entries) + rest, entries.len())
            == Ok::<(Seq<(u32, Seq<char>)>, nat), Error>((entries, encode_function_infos(entries).len())),
    decreases entries.len(),
{
    if entries.len() > 0 {
        let tail = entries.drop_first();
        let after = encode_function_infos(tail) + rest;
        let s = encode_function_infos(entries) + rest;
        assert(s =~= encode_function_info(entries[0].0, entries[0].1) + after);
        lemma_function_info_roundtrip(entries[0].0, entries[0].1, after);
        let n = encode_function_info(entries[0].0, entries[0].1).len();
        assert(s.subrange(n as int, s.len() as int) =~= after);
        assert(names_fit(tail)) by {
            assert forall|i: int| 0 <= i < tail.len() implies encode_utf8(#[trigger] tail[i].1).len() < 0x1_0000_0000_0000_0000 by {
                assert(tail[i] == entries[i + 1]);
            }
        }
        lemma_function_infos_roundtrip(tail, rest);
        assert(seq![entries[0]] + tail =~= entries);
    } else {
        assert(entries =~= Seq::<(u32, Seq<char>)>::empty());
    }
}

/// Reading back a written function table gives the table its entries build,
/// whatever follows.
pub proof fn lemma_function_table_roundtrip(entries: Seq<(u32, Seq<char>)>, rest: Seq<u8>)
    requires
        entries.len() <= 0xffff,
        names_fit(entries),
    ensures
        decode_function_table(encode_function_table(entries) + rest)
            == Ok::<(Map<u32, Seq<char>>, nat), Error>((table_of(entries), encode_function_table(entries).len())),
{
    let s = encode_function_table(entries) + rest;
    lemma_byte_range_values();
    lemma_le_bytes_len(entries.len(), 2);
    lemma_le_value_of_bytes(entries.len(), 2);
    assert(s.take(2) =~= le_bytes(entries.len(), 2));
    assert(s.subrange(2, s.len() as int) =~= encode_function_infos(entries) + rest);
    lemma_function_infos_roundtrip(entries, rest);
}

proof fn lemma_table_of_keys(entries: Seq<(u32, Seq<char>)>, k: u32)
    ensures
        table_of(entries).contains_key(k) <==> exists|i: int| 0 <= i < entries.len() && entries[i].0 == k,
    decreases entries.len(),
{
    if entries.len() > 0 {
        let init = entries.drop_last();
        lemma_table_of_keys(init, k);
        if table_of(entries).contains_key(k) && k != entries.last().0 {
            let i = choose|i: int| 0 <= i < init.len() && init[i].0 == k;
            assert(entries[i].0 == k);
        }
        if exists|i: int| 0 <= i < entries.len() && entries[i].0 == k {
            let i = choose|i: int| 0 <= i < entries.len() && entries[i].0 == k;
            if i < entries.len() - 1 {
                assert(init[i].0 == k);
            }
        }
    }
}

proof fn lemma_table_of_values(entries: Seq<(u32, Seq<char>)>, i: int)
    requires
        0 <= i < entries.len(),
        forall|a: int, b: int| 0 <= a < b < entries.len() ==> entries[a].0 != entries[b].0,
    ensures
        table_of(entries).contains_key(entries[i].0),
        table_of(entries)[entries[i].0] == entries[i].1,
    decreases entries.len(),
{
    let init = entries.drop_last();
    if i < entries.len() - 1 {
        assert(entries[i].0 != entries[entries.len() - 1].0);
        lemma_table_of_values(init, i);
    }
}

/// A listing of a table builds that table.
pub proof fn lemma_table_of_listing(entries: Seq<(u32, Seq<char>)>, m: Map<u32, Seq<char>>)
    requires
        lists_table(entries, m),
    ensures
        table_of(entries) == m,
{
    let t = table_of(entries);
    assert forall|k: u32| t.contains_key(k) <==> m.contains_key(k) by {
        lemma_table_of_keys(entries, k);
        if t.contains_key(k) {
            let i = choose|i: int| 0 <= i < entries.len() && entries[i].0 == k;
            assert(m.contains_key(entries[i].0));
        }
    }
    assert forall|k: u32| #[trigger] t.contains_key(k) implies t[k] == m[k] by {
        lemma_table_of_keys(entries, k);
        let i = choose|i: int| 0 <= i < entries.len() && entries[i].0 == k;
        lemma_table_of_values(entries, i);
        assert(m.contains_key(entries[i].0));
    }
    assert(t =~= m);
}

/// Whatever order a function table is written in, reading it back gives the
/// same table.
pub proof fn lemma_written_function_table_reads_back(
    entries: Seq<(u32, Seq<char>)>,
    m: Map<u32, Seq<char>>,
    rest: Seq<u8>,
)
    requires
        lists_table(entries, m),
        entries.len() <= 0xffff,
        names_fit(entries),
    ensures
        decode_function_table(encode_function_table(entries) + rest)
            == Ok::<(Map<u32, Seq<char>>, nat), Error>((m, encode_function_table(entries).len())),
{
    lemma_function_table_roundtrip(entries, rest);
    lemma_table_of_listing(entries, m);
}

} // verus!
