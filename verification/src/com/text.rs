//! Building message text: decimal numbers and separated lists.

use vstd::prelude::*;

verus! {

/// The text of a single decimal digit.
pub open spec fn digit_text(d: nat) -> Seq<char> {
    if d == 0 { "0"@ }
    else if d == 1 { "1"@ }
    else if d == 2 { "2"@ }
    else if d == 3 { "3"@ }
    else if d == 4 { "4"@ }
    else if d == 5 { "5"@ }
    else if d == 6 { "6"@ }
    else if d == 7 { "7"@ }
    else if d == 8 { "8"@ }
    else { "9"@ }
}

/// The decimal text of `n`, without leading zeros.
pub open spec fn decimal(n: nat) -> Seq<char>
    decreases n,
{
    if n < 10 {
        digit_text(n)
    } else {
        decimal(n / 10) + digit_text(n % 10)
    }
}

/// The items of `items` one after the other, with `sep` between each two.
pub open spec fn joined(items: Seq<Seq<char>>, sep: Seq<char>) -> Seq<char>
    decreases items.len(),
{
    if items.len() == 0 {
        Seq::empty()
    } else if items.len() == 1 {
        items[0]
    } else {
        items[0] + sep + joined(items.drop_first(), sep)
    }
}

/// The views of a list of strings.
pub open spec fn texts(items: Seq<String>) -> Seq<Seq<char>> {
    items.map_values(|s: String| s@)
}

fn push_digit(out: &mut String, d: usize)
    requires
        d < 10,
    ensures
        final(out)@ == old(out)@ + digit_text(d as nat),
{
    let t = if d == 0 { "0" }
        else if d == 1 { "1" }
        else if d == 2 { "2" }
        else if d == 3 { "3" }
        else if d == 4 { "4" }
        else if d == 5 { "5" }
        else if d == 6 { "6" }
        else if d == 7 { "7" }
        else if d == 8 { "8" }
        else { "9" };
    out.append(t);
}

/// Appends the decimal text of `n` to `out`.
pub fn push_decimal(out: &mut String, n: usize)
    ensures
        final(out)@ == old(out)@ + decimal(n as nat),
    decreases n,
{
    if n < 10 {
        push_digit(out, n);
    } else {
        push_decimal(out, n / 10);
        push_digit(out, n % 10);
        proof {
            assert(decimal(n as nat) == decimal((n / 10) as nat) + digit_text((n % 10) as nat));
        }
    }
}

/// Appends the strings of `items` to `out`, with `sep` between each two.
pub fn push_joined(out: &mut String, items: &Vec<String>, sep: &str)
    ensures
        final(out)@ == old(out)@ + joined(texts(items@), sep@),
{
    let ghost start = out@;
    let mut i: usize = 0;
    while i < items.len()
        invariant
            0 <= i <= items.len(),
            out@ == start + joined(texts(items@).subrange(0, i as int), sep@),
        decreases items.len() - i,
    {
        proof {
            lemma_joined_snoc(texts(items@).subrange(0, i as int), items[i as int]@, sep@);
            assert(texts(items@).subrange(0, i as int).push(items[i as int]@)
                =~= texts(items@).subrange(0, i + 1));
        }
        if i > 0 {
            out.append(sep);
        }
        out.append(items[i].as_str());
        i = i + 1;
    }
    proof {
        assert(texts(items@).subrange(0, items.len() as int) =~= texts(items@));
    }
}

/// Joining one more item adds the separator and the item at the end.
pub proof fn lemma_joined_snoc(items: Seq<Seq<char>>, last: Seq<char>, sep: Seq<char>)
    ensures
        joined(items.push(last), sep) == if items.len() == 0 { last } else { joined(items, sep) + sep + last },
    decreases items.len(),
{
    if items.len() == 0 {
        assert(items.push(last).len() == 1);
        assert(items.push(last)[0] == last);
    } else if items.len() == 1 {
        assert(items.push(last).drop_first() =~= seq![last]);
        assert(joined(seq![last], sep) == last);
    } else {
        lemma_joined_snoc(items.drop_first(), last, sep);
        assert(items.push(last).drop_first() =~= items.drop_first().push(last));
        assert((items[0] + sep + joined(items.drop_first(), sep)) + sep + last
            =~= items[0] + sep + (joined(items.drop_first(), sep) + sep + last));
    }
}

/// `a` and then `b`.
pub fn concat2(a: &str, b: &str) -> (s: String)
    ensures
        s@ == a@ + b@,
{
    let mut s = String::from_str(a);
    s.append(b);
    s
}

/// `a`, `b` and `c` one after the other.
pub fn concat3(a: &str, b: &str, c: &str) -> (s: String)
    ensures
        s@ == a@ + b@ + c@,
{
    let mut s = String::from_str(a);
    s.append(b);
    s.append(c);
    s
}

/// `a` to `d` one after the other.
pub fn concat4(a: &str, b: &str, c: &str, d: &str) -> (s: String)
    ensures
        s@ == a@ + b@ + c@ + d@,
{
    let mut s = String::from_str(a);
    s.append(b);
    s.append(c);
    s.append(d);
    s
}

/// `a` to `e` one after the other.
pub fn concat5(a: &str, b: &str, c: &str, d: &str, e: &str) -> (s: String)
    ensures
        s@ == a@ + b@ + c@ + d@ + e@,
{
    let mut s = String::from_str(a);
    s.append(b);
    s.append(c);
    s.append(d);
    s.append(e);
    s
}

} // verus!
