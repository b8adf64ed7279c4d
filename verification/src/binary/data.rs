//! Reading and writing strings and values.

use vstd::prelude::*;
use vstd::utf8::{valid_utf8, decode_utf8, encode_utf8, encode_utf8_valid_utf8, encode_utf8_decode_utf8};
use vstd::string::StringSliceAdditionalSpecFns;
use super::error::{Error, Result};
use super::le::{
    le_value, le_bytes, byte_range, i64_bits, i64_of_bits, append_bytes, le_u64_bytes, le_i64_bytes,
    le_u64_at, le_i64_at, lemma_byte_range_values, lemma_le_bytes_len, lemma_le_value_of_bytes,
    lemma_le_value_bound, lemma_i64_bits_roundtrip,
};
use super::value::{Value, ValueModel, models, lemma_models_len, INT, FLOAT, STRING, BOOL, BUNDLE};

verus! {

/// The bytes from `pos` to the end.
pub open spec fn rest_from(bytes: Seq<u8>, pos: int) -> Seq<u8> {
    bytes.subrange(pos, bytes.len() as int)
}

/// The bytes that stand for a string: its UTF-8 length as eight little-endian
/// bytes, then its UTF-8 bytes.
pub open spec fn encode_string(chars: Seq<char>) -> Seq<u8> {
    le_bytes(encode_utf8(chars).len(), 8) + encode_utf8(chars)
}

/// What reading a string from the start of `s` gives: its characters and the
/// number of bytes it takes, or the error met.
pub open spec fn decode_string(s: Seq<u8>) -> Result<(Seq<char>, nat)> {
    if s.len() < 8 {
        Err(Error::IO)
    } else {
        let n = le_value(s.subrange(0, 8));
        if s.len() - 8 < n {
            Err(Error::IO)
        } else if valid_utf8(s.subrange(8, 8 + n as int)) {
            Ok((decode_utf8(s.subrange(8, 8 + n as int)), 8 + n))
        } else {
            Err(Error::Utf8)
        }
    }
}

/// Whether a value can be written: no nil or function value, no bundle of
/// more than 255 items, no string longer than a 64-bit length can tell.
pub open spec fn writable(m: ValueModel) -> bool
    decreases m,
{
    match m {
        ValueModel::Nil => false,
        ValueModel::Func => false,
        ValueModel::String(chars) => encode_utf8(chars).len() < 0x1_0000_0000_0000_0000,
        ValueModel::Bundle(items) => items.len() <= 255 && all_writable(items),
        _ => true,
    }
}

/// Whether every value of `items` can be written.
pub open spec fn all_writable(items: Seq<ValueModel>) -> bool
    decreases items,
{
    items.len() == 0 || (writable(items[0]) && all_writable(items.drop_first()))
}

/// The bytes that stand for a value: a byte that tells its kind, then its
/// content.
pub open spec fn encode_value(m: ValueModel) -> Seq<u8>
    decreases m,
{
    match m {
        ValueModel::Int(n) => seq![INT] + le_bytes(i64_bits(n), 8),
        ValueModel::Float(bits) => seq![FLOAT] + le_bytes(bits as nat, 8),
        ValueModel::String(chars) => seq![STRING] + encode_string(chars),
        ValueModel::Bool(b) => seq![BOOL, if b { 1u8 } else { 0u8 }],
        ValueModel::Bundle(items) => seq![BUNDLE, items.len() as u8] + encode_values(items),
        _ => Seq::empty(),
    }
}

/// The bytes that stand for each of `items`, one after the other.
pub open spec fn encode_values(items: Seq<ValueModel>) -> Seq<u8>
    decreases items,
{
    if items.len() == 0 {
        Seq::empty()
    } else {
        encode_value(items[0]) + encode_values(items.drop_first())
    }
}

/// What reading a value from the start of `s` gives: the value and the number
/// of bytes it takes, or the error met.
pub open spec fn decode_value(s: Seq<u8>) -> Result<(ValueModel, nat)>
    decreases s.len(), 0nat,
{
    if s.len() == 0 {
        Err(Error::IO)
    } else if s[0] == INT {
        if s.len() < 9 {
            Err(Error::IO)
        } else {
            Ok((ValueModel::Int(i64_of_bits(le_value(s.subrange(1, 9))) as i64), 9))
        }
    } else if s[0] == FLOAT {
        if s.len() < 9 {
            Err(Error::IO)
        } else {
            Ok((ValueModel::Float(le_value(s.subrange(1, 9)) as u64), 9))
        }
    } else if s[0] == STRING {
        match decode_string(s.drop_first()) {
            Ok((chars, n)) => Ok((ValueModel::String(chars), 1 + n)),
            Err(e) => Err(e),
        }
    } else if s[0] == BOOL {
        if s.len() < 2 {
            Err(Error::IO)
        } else {
            Ok((ValueModel::Bool(s[1] != 0), 2))
        }
    } else if s[0] == BUNDLE {
        if s.len() < 2 {
            Err(Error::IO)
        } else {
            match decode_values(s.subrange(2, s.len() as int), s[1] as nat) {
                Ok((items, n)) => Ok((ValueModel::Bundle(items), 2 + n)),
                Err(e) => Err(e),
            }
        }
    } else {
        Err(Error::IllegalValue)
    }
}

/// What reading `count` values one after the other from the start of `s`
/// gives: the values and the number of bytes they take, or the first error met.
pub open spec fn decode_values(s: Seq<u8>, count: nat) -> Result<(Seq<ValueModel>, nat)>
    decreases s.len(), count + 1,
{
    if count == 0 {
        Ok((Seq::empty(), 0))
    } else {
        match decode_value(s) {
            Err(e) => Err(e),
            Ok((first, n)) => if n > s.len() {
                Err(Error::IO)
            } else {
                match decode_values(s.subrange(n as int, s.len() as int), (count - 1) as nat) {
                    Ok((others, m)) => Ok((seq![first] + others, n + m)),
                    Err(e) => Err(e),
                }
            },
        }
    }
}


pub proof fn lemma_decode_value_len(s: Seq<u8>)
    ensures
        decode_value(s) matches Ok((_, n)) ==> 1 <= n <= s.len(),
    decreases s.len(), 0nat,
{
    if s.len() >= 2 && s[0] == BUNDLE {
        lemma_decode_values_len(s.subrange(2, s.len() as int), s[1] as nat);
    }
}

pub proof fn lemma_decode_values_len(s: Seq<u8>, count: nat)
    ensures
        decode_values(s, count) matches Ok((items, n)) ==> n <= s.len() && items.len() == count,
    decreases s.len(), count + 1,
{
    if count > 0 {
        lemma_decode_value_len(s);
        if let Ok((first, n)) = decode_value(s) {
            lemma_decode_values_len(s.subrange(n as int, s.len() as int), (count - 1) as nat);
        }
    }
}

/// Reading back what was written for a string gives its characters, whatever
/// follows.
pub proof fn lemma_string_roundtrip(chars: Seq<char>, rest: Seq<u8>)
    requires
        encode_utf8(chars).len() < 0x1_0000_0000_0000_0000,
    ensures
        decode_string(encode_string(chars) + rest) == Ok::<(Seq<char>, nat), Error>((chars, encode_string(chars).len())),
{
    let bytes = encode_utf8(chars);
    let s = encode_string(chars) + rest;
    lemma_le_bytes_len(bytes.len(), 8);
    lemma_byte_range_values();
    lemma_le_value_of_bytes(bytes.len(), 8);
    assert(s.subrange(0, 8) =~= le_bytes(bytes.len(), 8));
    assert(s.subrange(8, 8 + bytes.len() as int) =~= bytes);
    encode_utf8_valid_utf8(chars);
    encode_utf8_decode_utf8(chars);
}

/// Reading back what was written for a value gives that value, whatever
/// follows it.
pub proof fn lemma_value_roundtrip(m: ValueModel, rest: Seq<u8>)
    requires
        writable(m),
    ensures
        decode_value(encode_value(m) + rest) == Ok::<(ValueModel, nat), Error>((m, encode_value(m).len())),
    decreases m,
{
    let s = encode_value(m) + rest;
    lemma_byte_range_values();
    match m {
        ValueModel::Int(n) => {
            lemma_le_bytes_len(i64_bits(n), 8);
            lemma_i64_bits_roundtrip(n);
            lemma_le_value_of_bytes(i64_bits(n), 8);
            assert(s.subrange(1, 9) =~= le_bytes(i64_bits(n), 8));
        },
        ValueModel::Float(bits) => {
            lemma_le_bytes_len(bits as nat, 8);
            lemma_le_value_of_bytes(bits as nat, 8);
            assert(s.subrange(1, 9) =~= le_bytes(bits as nat, 8));
        },
        ValueModel::String(chars) => {
            lemma_le_bytes_len(encode_utf8(chars).len(), 8);
            lemma_string_roundtrip(chars, rest);
            assert(s.drop_first() =~= encode_string(chars) + rest);
        },
        ValueModel::Bool(b) => {},
        ValueModel::Bundle(items) => {
            lemma_values_roundtrip(items, rest);
            assert(s.subrange(2, s.len() as int) =~= encode_values(items) + rest);
        },
        _ => {},
    }
}

/// Reading back `items.len()` values from what was written for `items` gives
/// `items`, whatever follows them.
pub proof fn lemma_values_roundtrip(items: Seq<ValueModel>, rest: Seq<u8>)
    requires
        all_writable(items),
    ensures
        decode_values(encode_values(items) + rest, items.len()) == Ok::<(Seq<ValueModel>, nat), Error>((items, encode_values(items).len())),
    decreases items,
{
    if items.len() > 0 {
        let tail = items.drop_first();
        let after = encode_values(tail) + rest;
        let s = encode_values(items) + rest;
        assert(s =~= encode_value(items[0]) + after);
        lemma_value_roundtrip(items[0], after);
        let n = encode_value(items[0]).len();
        assert(s.subrange(n as int, s.len() as int) =~= after);
        lemma_values_roundtrip(tail, rest);
        assert(seq![items[0]] + tail =~= items);
    } else {
        assert(items =~= Seq::<ValueModel>::empty());
    }
}


proof fn lemma_encode_values_snoc(items: Seq<ValueModel>, i: int)
    requires
        0 <= i < items.len(),
    ensures
        encode_values(items.take(i + 1)) == encode_values(items.take(i)) + encode_value(items[i]),
    decreases i,
{
    if i == 0 {
        let one = items.take(1);
        assert(one.drop_first() =~= Seq::<ValueModel>::empty());
        assert(encode_values(one.drop_first()) == Seq::<u8>::empty());
        assert(items.take(0) =~= Seq::<ValueModel>::empty());
        assert(encode_values(items.take(0)) == Seq::<u8>::empty());
        assert(encode_values(one) =~= encode_value(items[0]));
    } else {
        let tail = items.drop_first();
        lemma_encode_values_snoc(tail, i - 1);
        assert(items.take(i + 1).drop_first() =~= tail.take(i));
        assert(items.take(i).drop_first() =~= tail.take(i - 1));
        assert(encode_values(items.take(i + 1)) =~= encode_values(items.take(i)) + encode_value(items[i]));
    }
}

proof fn lemma_all_writable_index(items: Seq<ValueModel>, i: int)
    requires
        all_writable(items),
        0 <= i < items.len(),
    ensures
        writable(items[i]),
    decreases i,
{
    if i > 0 {
        lemma_all_writable_index(items.drop_first(), i - 1);
    }
}

/// A sequence of values can be written when each of its values can.
pub proof fn lemma_all_writable_each(items: Seq<ValueModel>)
    requires
        forall|i: int| 0 <= i < items.len() ==> writable(#[trigger] items[i]),
    ensures
        all_writable(items),
    decreases items.len(),
{
    if items.len() > 0 {
        let tail = items.drop_first();
        assert forall|i: int| 0 <= i < tail.len() implies writable(#[trigger] tail[i]) by {
            assert(tail[i] == items[i + 1]);
        }
        lemma_all_writable_each(tail);
        assert(writable(items[0]));
    }
}

/// `String::from_utf8` from std: the string that `bytes` encode, when they are
/// valid UTF-8, and `None` when they are not.
#[verifier::external_body]
fn string_from_utf8(bytes: Vec<u8>) -> (s: Option<String>)
    ensures
        s is Some <==> valid_utf8(bytes@),
        s matches Some(s) ==> s@ == decode_utf8(bytes@),
{
    String::from_utf8(bytes).ok()
}

/// Whether `res` is what reading at `pos` should give when the bytes from
/// `pos` on decode to `expected`.
pub open spec fn string_read(res: Result<(String, usize)>, expected: Result<(Seq<char>, nat)>, pos: usize) -> bool {
    match expected {
        Ok((chars, n)) => res matches Ok((s, q)) && s@ == chars && q == pos + n,
        Err(e) => res == Err::<(String, usize), Error>(e),
    }
}

/// Whether `res` is what reading at `pos` should give when the bytes from
/// `pos` on decode to `expected`.
pub open spec fn value_read(res: Result<(Value, usize)>, expected: Result<(ValueModel, nat)>, pos: usize) -> bool {
    match expected {
        Ok((m, n)) => res matches Ok((v, q)) && v.model() == m && q == pos + n,
        Err(e) => res == Err::<(Value, usize), Error>(e),
    }
}

/// Reads the string that starts at `pos`.
pub fn read_string(bytes: &[u8], pos: usize) -> (res: Result<(String, usize)>)
    requires
        pos <= bytes@.len(),
    ensures
        string_read(res, decode_string(rest_from(bytes@, pos as int)), pos),
{
    let ghost s = rest_from(bytes@, pos as int);
    if bytes.len() - pos < 8 {
        return Err(Error::IO);
    }
    let len = le_u64_at(bytes, pos);
    let p = pos + 8;
    proof {
        assert(s.subrange(0, 8) =~= bytes@.subrange(pos as int, pos + 8));
    }
    if len > (bytes.len() - p) as u64 {
        return Err(Error::IO);
    }
    let n = len as usize;
    let mut buf: Vec<u8> = Vec::new();
    let mut i: usize = 0;
    while i < n
        invariant
            p + n <= bytes.len(),
            0 <= i <= n,
            buf@ == bytes@.subrange(p as int, p + i),
        decreases n - i,
    {
        buf.push(bytes[p + i]);
        i = i + 1;
        assert(buf@ =~= bytes@.subrange(p as int, p + i));
    }
    proof {
        assert(buf@ =~= s.subrange(8, 8 + n as int));
    }
    match string_from_utf8(buf) {
        Some(text) => Ok((text, p + n)),
        None => Err(Error::Utf8),
    }
}

/// Writes the bytes that stand for the string `s` at the end of `w`.
pub fn write_string(w: &mut Vec<u8>, s: &str)
    ensures
        final(w)@ == old(w)@ + encode_string(s@),
{
    let raw = s.as_bytes();
    let len = raw.len() as u64;
    append_bytes(w, &le_u64_bytes(len));
    append_bytes(w, raw);
    proof {
        assert(final(w)@ =~= old(w)@ + encode_string(s@));
    }
}

/// Whether `res` is what reading at `pos` should give when the bytes from
/// `pos` on decode to `expected`.
pub open spec fn values_read(res: Result<(Vec<Value>, usize)>, expected: Result<(Seq<ValueModel>, nat)>, pos: usize) -> bool {
    match expected {
        Ok((ms, n)) => res matches Ok((vs, q)) && models(vs@) == ms && q == pos + n,
        Err(e) => res == Err::<(Vec<Value>, usize), Error>(e),
    }
}

/// Reads `count` values one after the other, starting at `pos`.
#[verifier::loop_isolation(false)]
pub fn read_values(bytes: &[u8], pos: usize, count: usize) -> (res: Result<(Vec<Value>, usize)>)
    requires
        pos <= bytes@.len(),
    ensures
        values_read(res, decode_values(rest_from(bytes@, pos as int), count as nat), pos),
    decreases bytes@.len() - pos, count + 1,
{
    let ghost inner = rest_from(bytes@, pos as int);
    let mut items: Vec<Value> = Vec::with_capacity(count);
    let mut q = pos;
    let mut i: usize = 0;
    while i < count
        invariant
            pos <= q <= bytes@.len(),
            0 <= i <= count,
            items@.len() == i,
            decode_values(inner, count as nat) == (match decode_values(rest_from(bytes@, q as int), (count - i) as nat) {
                Ok((others, m)) => Ok::<(Seq<ValueModel>, nat), Error>((models(items@) + others, ((q - pos) + m) as nat)),
                Err(e) => Err::<(Seq<ValueModel>, nat), Error>(e),
            }),
        decreases count - i,
    {
        let ghost here = rest_from(bytes@, q as int);
        proof {
            lemma_decode_value_len(here);
        }
        let (item, next) = match read_value(bytes, q) {
            Ok(r) => r,
            Err(e) => return Err(e),
        };
        proof {
            let n = (next - q) as nat;
            assert(here.subrange(n as int, here.len() as int) =~= rest_from(bytes@, next as int));
            assert(models(items@.push(item)) =~= models(items@).push(item.model())) by {
                assert(items@.push(item).drop_last() =~= items@);
            }
            if let Ok((others, m)) = decode_values(rest_from(bytes@, next as int), (count - i - 1) as nat) {
                assert(models(items@) + (seq![item.model()] + others) =~= models(items@).push(item.model()) + others);
            }
        }
        items.push(item);
        q = next;
        i = i + 1;
    }
    proof {
        assert(models(items@) + Seq::<ValueModel>::empty() =~= models(items@));
    }
    Ok((items, q))
}

/// Reads the value that starts at `pos`.
pub fn read_value(bytes: &[u8], pos: usize) -> (res: Result<(Value, usize)>)
    requires
        pos <= bytes@.len(),
    ensures
        value_read(res, decode_value(rest_from(bytes@, pos as int)), pos),
    decreases bytes@.len() - pos, 0nat,
{
    let ghost s = rest_from(bytes@, pos as int);
    if pos >= bytes.len() {
        return Err(Error::IO);
    }
    let tag = bytes[pos];
    let p = pos + 1;
    assert(s[0] == tag);
    if tag == INT {
        if bytes.len() - p < 8 {
            return Err(Error::IO);
        }
        proof {
            assert(s.subrange(1, 9) =~= bytes@.subrange(p as int, p + 8));
            lemma_le_value_bound(s.subrange(1, 9));
            lemma_byte_range_values();
        }
        Ok((Value::Int(le_i64_at(bytes, p)), p + 8))
    } else if tag == FLOAT {
        if bytes.len() - p < 8 {
            return Err(Error::IO);
        }
        proof {
            assert(s.subrange(1, 9) =~= bytes@.subrange(p as int, p + 8));
        }
        proof {
            lemma_le_value_bound(s.subrange(1, 9));
            lemma_byte_range_values();
        }
        Ok((Value::Float(le_u64_at(bytes, p)), p + 8))
    } else if tag == STRING {
        proof {
            assert(s.drop_first() =~= rest_from(bytes@, p as int));
        }
        let (text, q) = match read_string(bytes, p) {
            Ok(r) => r,
            Err(e) => return Err(e),
        };
        Ok((Value::String(text), q))
    } else if tag == BOOL {
        if bytes.len() - p < 1 {
            return Err(Error::IO);
        }
        Ok((Value::Bool(bytes[p] != 0), p + 1))
    } else if tag == BUNDLE {
        if bytes.len() - p < 1 {
            return Err(Error::IO);
        }
        let count = bytes[p] as usize;
        proof {
            assert(s.subrange(2, s.len() as int) =~= rest_from(bytes@, (p + 1) as int));
        }
        let (items, q) = match read_values(bytes, p + 1, count) {
            Ok(r) => r,
            Err(e) => return Err(e),
        };
        Ok((Value::Bundle(items), q))
    } else {
        Err(Error::IllegalValue)
    }
}

/// Writes the bytes that stand for each of `items`, one after the other, at
/// the end of `w`.
pub fn write_values(w: &mut Vec<u8>, items: &[Value])
    requires
        all_writable(models(items@)),
    ensures
        final(w)@ == old(w)@ + encode_values(models(items@)),
    decreases items@,
{
    let ghost start = w@;
    let ghost ms = models(items@);
    proof {
        lemma_models_len(items@);
    }
    let mut i: usize = 0;
    while i < items.len()
        invariant
            0 <= i <= items@.len(),
            ms == models(items@),
            ms.len() == items@.len(),
            all_writable(ms),
            w@ == start + encode_values(ms.take(i as int)),
        decreases items@.len() - i,
    {
        proof {
            super::value::lemma_models_index(items@, i as int);
            lemma_all_writable_index(ms, i as int);
            lemma_encode_values_snoc(ms, i as int);
            assert(decreases_to!(items@ => items@[i as int]));
        }
        write_value(w, &items[i]);
        i = i + 1;
    }
    proof {
        assert(ms.take(i as int) =~= ms);
    }
}

/// Writes the bytes that stand for `value` at the end of `w`.
#[verifier::loop_isolation(false)]
pub fn write_value(w: &mut Vec<u8>, value: &Value)
    requires
        writable(value.model()),
    ensures
        final(w)@ == old(w)@ + encode_value(value.model()),
    decreases value,
{
    match value {
        Value::Nil => {},
        Value::Int(n) => {
            w.push(INT);
            append_bytes(w, &le_i64_bytes(*n));
        },
        Value::Float(bits) => {
            w.push(FLOAT);
            append_bytes(w, &le_u64_bytes(*bits));
        },
        Value::String(s) => {
            w.push(STRING);
            write_string(w, s.as_str());
        },
        Value::Bool(b) => {
            w.push(BOOL);
            w.push(if *b { 1u8 } else { 0u8 });
        },
        Value::Func => {},
        Value::Bundle(items) => {
            w.push(BUNDLE);
            w.push(items.len() as u8);
            proof {
                lemma_models_len(items@);
                assert(decreases_to!(*value => *items));
                assert(decreases_to!(*items => items@));
            }
            write_values(w, items.as_slice());
        },
    }
    proof {
        assert(final(w)@ =~= old(w)@ + encode_value(value.model()));
    }
}

} // verus!
