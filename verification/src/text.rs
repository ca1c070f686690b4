//! Strings: decimal numbers, comparison, and going over characters.

use vstd::prelude::*;

verus! {

/// `String::push` appends one character.
pub assume_specification[ String::push ](string: &mut String, ch: char)
    ensures
        final(string)@ == old(string)@.push(ch),
;

/// `String::from_utf8`: the string that the bytes encode, where they are UTF-8.
#[verifier::external_body]
pub(crate) fn from_utf8(bytes: Vec<u8>) -> (r: Option<String>)
    ensures
        r is Some <==> vstd::utf8::valid_utf8(bytes@),
        r is Some ==> r->0@ == vstd::utf8::decode_utf8(bytes@),
{
    String::from_utf8(bytes).ok()
}

/// The text, if there is one.
pub open spec fn text_of(s: Option<String>) -> Option<Seq<char>> {
    match s {
        Some(s) => Some(s@),
        None => None,
    }
}

/// The character of a decimal digit.
pub open spec fn digit_char(d: int) -> char {
    (48 + d) as char
}

/// The character of a decimal digit.
pub fn digit(n: u64) -> (r: char)
    requires
        n < 10,
    ensures
        r == digit_char(n as int),
{
    (48 + n) as u8 as char
}

/// A natural number in decimal, without leading zeros.
pub open spec fn decimal(n: nat) -> Seq<char>
    decreases n,
{
    if n < 10 {
        seq![digit_char(n as int)]
    } else {
        decimal(n / 10).push(digit_char((n % 10) as int))
    }
}

/// An integer in decimal, with a minus sign below zero.
pub open spec fn signed_decimal(n: int) -> Seq<char> {
    if n < 0 {
        seq!['-'] + decimal((-n) as nat)
    } else {
        decimal(n as nat)
    }
}

/// Appends `n` in decimal.
pub fn push_decimal(text: &mut String, n: u64)
    ensures
        final(text)@ == old(text)@ + decimal(n as nat),
    decreases n,
{
    if n >= 10 {
        push_decimal(text, n / 10);
    }
    text.push((48 + n % 10) as u8 as char);
}

/// Appends `n` in decimal, with a minus sign below zero.
pub fn push_signed(text: &mut String, n: i64)
    ensures
        final(text)@ == old(text)@ + signed_decimal(n as int),
{
    if n < 0 {
        text.push('-');
        let magnitude: u64 = (0 - n as i128) as u64;
        push_decimal(text, magnitude);
    } else {
        push_decimal(text, n as u64);
    }
}

/// Whether two strings hold the same characters.
pub fn same(a: &str, b: &str) -> (r: bool)
    ensures
        r == (a@ == b@),
{
    a.to_owned() == b.to_owned()
}

/// The characters of a string.
pub fn chars(text: &str) -> (r: Vec<char>)
    ensures
        r@ == text@,
{
    let mut found: Vec<char> = Vec::new();
    for c in iter: text.chars()
        invariant
            found@ == text@.take(iter.index() as int),
            iter.seq() == text@,
    {
        found.push(c);
    }
    assert(text@.take(text@.len() as int) =~= text@);
    found
}

/// `a` comes before `b` by their characters, a prefix first.
pub open spec fn precedes(a: Seq<char>, b: Seq<char>) -> bool
    decreases a.len(),
{
    if b.len() == 0 {
        false
    } else if a.len() == 0 {
        true
    } else if a[0] != b[0] {
        (a[0] as int) < (b[0] as int)
    } else {
        precedes(a.drop_first(), b.drop_first())
    }
}

/// Whether `a` comes before `b`.
pub fn comes_before(a: &str, b: &str) -> (r: bool)
    ensures
        r == precedes(a@, b@),
{
    let a_chars = chars(a);
    let b_chars = chars(b);
    let mut i: usize = 0;
    assert(a@.skip(0) =~= a@);
    assert(b@.skip(0) =~= b@);
    while i < a_chars.len() && i < b_chars.len()
        invariant
            a_chars@ == a@,
            b_chars@ == b@,
            i <= a@.len(),
            i <= b@.len(),
            precedes(a@, b@) == precedes(a@.skip(i as int), b@.skip(i as int)),
        decreases a@.len() - i,
    {
        let ghost rest_a = a@.skip(i as int);
        let ghost rest_b = b@.skip(i as int);
        assert(rest_a[0] == a@[i as int]);
        assert(rest_b[0] == b@[i as int]);
        if a_chars[i] != b_chars[i] {
            return a_chars[i] < b_chars[i];
        }
        assert(rest_a.drop_first() =~= a@.skip(i + 1));
        assert(rest_b.drop_first() =~= b@.skip(i + 1));
        i = i + 1;
    }
    i < b_chars.len()
}

/// The order is strict, total up to equality, and transitive.
pub proof fn lemma_order(a: Seq<char>, b: Seq<char>, c: Seq<char>)
    ensures
        !precedes(a, a),
        precedes(a, b) ==> !precedes(b, a),
        precedes(a, b) && !precedes(c, b) ==> precedes(a, c),
        precedes(a, b) && precedes(b, c) ==> precedes(a, c),
    decreases a.len() + b.len() + c.len(),
{
    if a.len() > 0 {
        let ta = a.drop_first();
        let tb = if b.len() > 0 { b.drop_first() } else { b };
        let tc = if c.len() > 0 { c.drop_first() } else { c };
        lemma_order(ta, tb, tc);
        if precedes(a, b) && !precedes(c, b) {
            assert(b.len() > 0);
            assert(c.len() > 0);
            if a[0] == b[0] && b[0] == c[0] {
                assert(precedes(ta, tc));
            } else if a[0] == b[0] {
                assert((c[0] as int) > (b[0] as int));
            } else if b[0] != c[0] {
                assert((c[0] as int) > (b[0] as int));
                assert(a[0] != c[0]);
            }
            assert(precedes(a, c));
        }
    }
}

/// The strings stand in order.
pub open spec fn in_order(list: Seq<String>) -> bool {
    forall|i: int, j: int|
        0 <= i < j < list.len() ==> !precedes((#[trigger] list[j])@, (#[trigger] list[i])@)
}

/// Inserts a string behind those that do not come after it.
fn insert_in_order(list: &mut Vec<String>, item: String)
    requires
        in_order(old(list)@),
    ensures
        in_order(final(list)@),
        final(list)@.to_multiset() == old(list)@.to_multiset().insert(item),
{
    let mut at: usize = list.len();
    while at > 0 && comes_before(item.as_str(), list[at - 1].as_str())
        invariant
            at <= list@.len(),
            in_order(list@),
            forall|k: int| at <= k < list@.len() ==> precedes(item@, (#[trigger] list@[k])@),
        decreases at,
    {
        at = at - 1;
    }
    let ghost before = list@;
    list.insert(at, item);
    proof {
        let now = list@;
        assert forall|i: int, j: int| 0 <= i < j < now.len() implies !precedes(
            (#[trigger] now[j])@,
            (#[trigger] now[i])@,
        ) by {
            let pi = if i > at { i - 1 } else { i };
            let pj = if j > at { j - 1 } else { j };
            if i != at {
                assert(now[i] == before[pi]);
            }
            if j != at {
                assert(now[j] == before[pj]);
            }
            if i == at {
                lemma_order(item@, before[pj]@, before[pj]@);
            } else if j == at {
                if i < at - 1 {
                    lemma_order(item@, before[i]@, before[at - 1]@);
                }
            }
        }
        vstd::seq_lib::to_multiset_insert(before, at as int, item);
    }
}

/// The strings in order.
pub fn sorted(list: &Vec<String>) -> (r: Vec<String>)
    ensures
        in_order(r@),
        r@.to_multiset() == list@.to_multiset(),
{
    let mut found: Vec<String> = Vec::new();
    let mut i: usize = 0;
    assert(found@ =~= list@.take(0));
    while i < list.len()
        invariant
            i <= list@.len(),
            in_order(found@),
            found@.to_multiset() == list@.take(i as int).to_multiset(),
        decreases list@.len() - i,
    {
        insert_in_order(&mut found, list[i].clone());
        proof {
            assert(list@.take(i + 1) =~= list@.take(i as int).push(list@[i as int]));
            list@.take(i as int).to_multiset_ensures();
        }
        i = i + 1;
    }
    assert(list@.take(i as int) =~= list@);
    found
}

} // verus!
