//! Searching, trimming and reading strings.

use vstd::prelude::*;

use crate::text;

verus! {

/// Unicode white space.
pub open spec fn is_space(c: char) -> bool {
    let n = c as int;
    ||| 9 <= n <= 13
    ||| n == 0x20
    ||| n == 0x85
    ||| n == 0xa0
    ||| n == 0x1680
    ||| 0x2000 <= n <= 0x200a
    ||| n == 0x2028
    ||| n == 0x2029
    ||| n == 0x202f
    ||| n == 0x205f
    ||| n == 0x3000
}

pub fn space(c: char) -> (r: bool)
    ensures
        r == is_space(c),
{
    let n: u32 = c as u32;
    (9 <= n && n <= 13) || n == 0x20 || n == 0x85 || n == 0xa0 || n == 0x1680 || (0x2000 <= n && n
        <= 0x200a) || n == 0x2028 || n == 0x2029 || n == 0x202f || n == 0x205f || n == 0x3000
}

/// The string without the white space it starts with.
pub open spec fn trimmed_start(s: Seq<char>) -> Seq<char>
    decreases s.len(),
{
    if s.len() > 0 && is_space(s[0]) {
        trimmed_start(s.drop_first())
    } else {
        s
    }
}

/// The string without the white space it ends with.
pub open spec fn trimmed_end(s: Seq<char>) -> Seq<char>
    decreases s.len(),
{
    if s.len() > 0 && is_space(s.last()) {
        trimmed_end(s.drop_last())
    } else {
        s
    }
}

/// The string without the white space around it.
pub open spec fn trimmed(s: Seq<char>) -> Seq<char> {
    trimmed_end(trimmed_start(s))
}

fn start_of(chars: &Vec<char>) -> (r: usize)
    ensures
        r <= chars@.len(),
        trimmed_start(chars@) == chars@.skip(r as int),
{
    let mut i: usize = 0;
    assert(chars@.skip(0) =~= chars@);
    while i < chars.len() && space(chars[i])
        invariant
            i <= chars@.len(),
            trimmed_start(chars@) == trimmed_start(chars@.skip(i as int)),
        decreases chars@.len() - i,
    {
        assert(chars@.skip(i as int).drop_first() =~= chars@.skip(i + 1));
        i = i + 1;
    }
    i
}

/// The string without the white space it starts with.
pub fn trim_start(s: &str) -> (r: String)
    ensures
        r@ == trimmed_start(s@),
{
    let chars = text::chars(s);
    let start = start_of(&chars);
    let r = part(&chars, start, chars.len());
    assert(chars@.subrange(start as int, chars@.len() as int) =~= chars@.skip(start as int));
    r
}

/// The string without the white space around it.
pub fn trim(s: &str) -> (r: String)
    ensures
        r@ == trimmed(s@),
{
    let chars = text::chars(s);
    let start = start_of(&chars);
    let ghost rest = chars@.skip(start as int);
    let mut end: usize = chars.len();
    assert(rest.take(end - start) =~= rest);
    while end > start && space(chars[end - 1])
        invariant
            start <= end <= chars@.len(),
            rest == chars@.skip(start as int),
            trimmed_end(rest) == trimmed_end(rest.take(end - start)),
        decreases end,
    {
        let ghost now = rest.take(end - start);
        assert(now.last() == chars@[end - 1]);
        assert(now.drop_last() =~= rest.take(end - start - 1));
        end = end - 1;
    }
    proof {
        let now = rest.take(end - start);
        if end > start {
            assert(now.last() == chars@[end - 1]);
        }
        assert(chars@.subrange(start as int, end as int) =~= now);
    }
    part(&chars, start, end)
}

/// Some of the characters as a string.
pub fn part(chars: &Vec<char>, start: usize, end: usize) -> (r: String)
    requires
        start <= end <= chars@.len(),
    ensures
        r@ == chars@.subrange(start as int, end as int),
{
    let mut found = String::new();
    let mut i: usize = start;
    while i < end
        invariant
            start <= i <= end <= chars@.len(),
            found@ == chars@.subrange(start as int, i as int),
        decreases end - i,
    {
        found.push(chars[i]);
        i = i + 1;
        assert(found@ =~= chars@.subrange(start as int, i as int));
    }
    found
}

/// `needle` stands at `at`.
pub open spec fn stands_at(s: Seq<char>, needle: Seq<char>, at: int) -> bool {
    0 <= at && at + needle.len() <= s.len() && s.subrange(at, at + needle.len() as int) == needle
}

/// The string starts with `prefix`.
pub open spec fn starts(s: Seq<char>, prefix: Seq<char>) -> bool {
    stands_at(s, prefix, 0)
}

/// `needle` occurs in the string.
pub open spec fn occurs(s: Seq<char>, needle: Seq<char>) -> bool {
    exists|at: int| stands_at(s, needle, at)
}

fn matches_at(chars: &Vec<char>, needle: &Vec<char>, at: usize) -> (r: bool)
    requires
        at <= chars@.len(),
    ensures
        r == stands_at(chars@, needle@, at as int),
{
    if needle.len() > chars.len() - at {
        return false;
    }
    let ghost found = chars@.subrange(at as int, at + needle@.len() as int);
    let mut i: usize = 0;
    while i < needle.len()
        invariant
            i <= needle@.len(),
            at + needle@.len() <= chars@.len(),
            chars.len() == chars@.len(),
            found == chars@.subrange(at as int, at + needle@.len() as int),
            forall|k: int| 0 <= k < i ==> found[k] == needle@[k],
        decreases needle@.len() - i,
    {
        if chars[at + i] != needle[i] {
            assert(found[i as int] != needle@[i as int]);
            return false;
        }
        i = i + 1;
    }
    assert(found =~= needle@);
    true
}

pub fn starts_with(s: &str, prefix: &str) -> (r: bool)
    ensures
        r == starts(s@, prefix@),
{
    let chars = text::chars(s);
    let wanted = text::chars(prefix);
    matches_at(&chars, &wanted, 0)
}

/// The string behind `prefix`, if it starts with it.
pub fn strip_prefix(s: &str, prefix: &str) -> (r: Option<String>)
    ensures
        match r {
            Some(rest) => starts(s@, prefix@) && rest@ == s@.skip(prefix@.len() as int),
            None => !starts(s@, prefix@),
        },
{
    let chars = text::chars(s);
    let wanted = text::chars(prefix);
    if !matches_at(&chars, &wanted, 0) {
        return None;
    }
    let rest = part(&chars, wanted.len(), chars.len());
    assert(rest@ =~= s@.skip(prefix@.len() as int));
    Some(rest)
}

pub fn contains(s: &str, needle: &str) -> (r: bool)
    ensures
        r == occurs(s@, needle@),
{
    let chars = text::chars(s);
    let wanted = text::chars(needle);
    let mut at: usize = 0;
    while at < chars.len()
        invariant
            chars@ == s@,
            wanted@ == needle@,
            at <= chars@.len(),
            forall|k: int| 0 <= k < at ==> !stands_at(s@, needle@, k),
        decreases chars@.len() - at,
    {
        if matches_at(&chars, &wanted, at) {
            return true;
        }
        at = at + 1;
    }
    matches_at(&chars, &wanted, at)
}

/// An ASCII letter in lower case; any other character as it is.
pub open spec fn lower(c: char) -> int {
    if 'A' <= c <= 'Z' {
        c as int + 32
    } else {
        c as int
    }
}

/// The string with ASCII letters in lower case.
pub open spec fn lowered(s: Seq<char>) -> Seq<char> {
    Seq::new(s.len(), |i: int| lower(s[i]) as char)
}

/// The string with ASCII letters in lower case.
pub fn lowercase(s: &str) -> (r: String)
    ensures
        r@ == lowered(s@),
{
    let chars = text::chars(s);
    let mut found = String::new();
    let mut i: usize = 0;
    while i < chars.len()
        invariant
            chars@ == s@,
            i <= chars@.len(),
            found@ == lowered(s@).take(i as int),
        decreases chars@.len() - i,
    {
        let c: char = chars[i];
        found.push(lower_char(c));
        i = i + 1;
        assert(lowered(s@).take(i as int) =~= lowered(s@).take(i - 1).push(lower(c) as char));
    }
    assert(lowered(s@).take(i as int) =~= lowered(s@));
    found
}

fn lower_char(c: char) -> (r: char)
    ensures
        r == lower(c) as char,
{
    if 'A' <= c && c <= 'Z' {
        (c as u8 + 32) as char
    } else {
        c
    }
}

/// The strings are equal but for the case of ASCII letters.
pub open spec fn same_ignoring_case(a: Seq<char>, b: Seq<char>) -> bool {
    a.len() == b.len() && forall|i: int| 0 <= i < a.len() ==> lower(#[trigger] a[i]) == lower(b[i])
}

fn lower_of(c: char) -> (r: u32)
    ensures
        r == lower(c),
{
    if 'A' <= c && c <= 'Z' {
        c as u32 + 32
    } else {
        c as u32
    }
}

pub fn equals_ignoring_case(a: &str, b: &str) -> (r: bool)
    ensures
        r == same_ignoring_case(a@, b@),
{
    let left = text::chars(a);
    let right = text::chars(b);
    if left.len() != right.len() {
        return false;
    }
    let mut i: usize = 0;
    while i < left.len()
        invariant
            left@ == a@,
            right@ == b@,
            left@.len() == right@.len(),
            i <= left@.len(),
            forall|k: int| 0 <= k < i ==> lower(#[trigger] a@[k]) == lower(b@[k]),
        decreases left@.len() - i,
    {
        let x: char = left[i];
        let y: char = right[i];
        if lower_of(x) != lower_of(y) {
            assert(lower(a@[i as int]) != lower(b@[i as int]));
            return false;
        }
        i = i + 1;
    }
    true
}

/// The value of a digit in a base of at most 16, letters in either case.
pub open spec fn digit_value(c: char, radix: int) -> Option<int> {
    let v = if '0' <= c <= '9' {
        c as int - 48
    } else if 'a' <= c <= 'f' {
        c as int - 87
    } else if 'A' <= c <= 'F' {
        c as int - 55
    } else {
        99
    };
    if v < radix {
        Some(v)
    } else {
        None
    }
}

/// The value of digits, if all are.
pub open spec fn digits_value(s: Seq<char>, radix: int) -> Option<int>
    decreases s.len(),
{
    if s.len() == 0 {
        Some(0)
    } else {
        match (digits_value(s.drop_last(), radix), digit_value(s.last(), radix)) {
            (Some(high), Some(low)) => Some(high * radix + low),
            _ => None,
        }
    }
}

/// The natural number that a string writes in a base: digits behind an
/// optional plus sign, of a value up to `max`.
pub open spec fn number_value(s: Seq<char>, radix: int, max: int) -> Option<int> {
    let digits = if s.len() > 0 && s[0] == '+' { s.drop_first() } else { s };
    if digits.len() == 0 {
        None
    } else {
        match digits_value(digits, radix) {
            Some(v) => if v <= max {
                Some(v)
            } else {
                None
            },
            None => None,
        }
    }
}

fn digit_of(c: char, radix: u64) -> (r: Option<u64>)
    requires
        radix <= 16,
    ensures
        match r {
            Some(v) => digit_value(c, radix as int) == Some(v as int) && v < radix,
            None => digit_value(c, radix as int) is None,
        },
{
    let n: u32 = c as u32;
    let v: u64 = if '0' <= c && c <= '9' {
        (n - 48) as u64
    } else if 'a' <= c && c <= 'f' {
        (n - 87) as u64
    } else if 'A' <= c && c <= 'F' {
        (n - 55) as u64
    } else {
        99
    };
    if v < radix {
        Some(v)
    } else {
        None
    }
}

/// More digits never make a number smaller, and one bad digit spoils it.
proof fn lemma_longer(s: Seq<char>, n: int, radix: int)
    requires
        0 <= n <= s.len(),
        1 <= radix,
    ensures
        digits_value(s.take(n), radix) is None ==> digits_value(s, radix) is None,
        digits_value(s, radix) is Some ==> digits_value(s, radix)->0 >= digits_value(
            s.take(n),
            radix,
        )->0 >= 0,
    decreases s.len(),
{
    if n == s.len() {
        assert(s.take(n) =~= s);
        if s.len() > 0 {
            lemma_longer(s.drop_last(), s.len() - 1, radix);
            assert(s.drop_last().take(s.len() - 1) =~= s.drop_last());
            if digits_value(s, radix) is Some {
                let high = digits_value(s.drop_last(), radix)->0;
                assert(high * radix >= 0) by (nonlinear_arith)
                    requires
                        high >= 0,
                        radix >= 1,
                ;
            }
        }
    } else {
        lemma_longer(s.drop_last(), n, radix);
        assert(s.drop_last().take(n) =~= s.take(n));
        if digits_value(s, radix) is Some {
            let high = digits_value(s.drop_last(), radix)->0;
            assert(high * radix >= high) by (nonlinear_arith)
                requires
                    high >= 0,
                    radix >= 1,
            ;
        }
    }
}

/// Reads a natural number in base 10 or 16.
pub fn parse_number(s: &str, radix: u64, max: u64) -> (r: Option<u64>)
    requires
        1 <= radix <= 16,
    ensures
        match r {
            Some(v) => number_value(s@, radix as int, max as int) == Some(v as int),
            None => number_value(s@, radix as int, max as int) is None,
        },
{
    let chars = text::chars(s);
    let start: usize = if chars.len() > 0 && chars[0] == '+' {
        1
    } else {
        0
    };
    let ghost digits = chars@.skip(start as int);
    assert(start == 1 ==> digits =~= s@.drop_first());
    assert(start == 0 ==> digits =~= s@);
    if start >= chars.len() {
        return None;
    }
    let mut value: u64 = 0;
    let mut i: usize = start;
    assert(digits.take(0) =~= Seq::<char>::empty());
    while i < chars.len()
        invariant
            start <= i <= chars@.len(),
            1 <= radix <= 16,
            digits == chars@.skip(start as int),
            digits.len() > 0,
            number_value(s@, radix as int, max as int) == (match digits_value(
                digits,
                radix as int,
            ) {
                Some(v) => if v <= max {
                    Some(v)
                } else {
                    None
                },
                None => None,
            }),
            digits_value(digits.take(i - start), radix as int) == Some(value as int),
            value <= max,
        decreases chars@.len() - i,
    {
        let ghost longer = digits.take(i - start + 1);
        proof {
            assert(longer.drop_last() =~= digits.take(i - start));
            assert(longer.last() == chars@[i as int]);
            lemma_longer(digits, i - start + 1, radix as int);
        }
        let d: u64 = match digit_of(chars[i], radix) {
            Some(d) => d,
            None => return None,
        };
        proof {
            assert(0 <= value * radix <= 0xffff_ffff_ffff_ffff * 16) by (nonlinear_arith)
                requires
                    0 <= value <= 0xffff_ffff_ffff_ffff,
                    0 <= radix <= 16,
            ;
        }
        let next: u128 = value as u128 * radix as u128 + d as u128;
        if next > max as u128 {
            return None;
        }
        value = next as u64;
        i = i + 1;
    }
    assert(digits.take(i - start) =~= digits);
    Some(value)
}

/// A natural number in lower-case hexadecimal, without leading zeros.
pub open spec fn hexadecimal(n: nat) -> Seq<char>
    decreases n,
{
    if n < 16 {
        seq![crate::json::hex_digit(n as int)]
    } else {
        hexadecimal(n / 16).push(crate::json::hex_digit((n % 16) as int))
    }
}

/// Appends `n` in hexadecimal.
pub fn push_hexadecimal(string: &mut String, n: u64)
    ensures
        final(string)@ == old(string)@ + hexadecimal(n as nat),
    decreases n,
{
    if n >= 16 {
        push_hexadecimal(string, n / 16);
    }
    let d: u8 = (n % 16) as u8;
    let c: u8 = if d < 10 {
        48 + d
    } else {
        87 + d
    };
    string.push(c as char);
    assert(string@ =~= old(string)@ + hexadecimal(n as nat));
}

/// An ASCII hexadecimal digit in either case.
pub open spec fn is_hex(c: char) -> bool {
    '0' <= c <= '9' || 'a' <= c <= 'f' || 'A' <= c <= 'F'
}

/// Every character is a hexadecimal digit.
pub open spec fn all_hex(s: Seq<char>) -> bool {
    forall|i: int| 0 <= i < s.len() ==> is_hex(#[trigger] s[i])
}

pub fn only_hex(s: &str) -> (r: bool)
    ensures
        r == all_hex(s@),
{
    let chars = text::chars(s);
    let mut i: usize = 0;
    while i < chars.len()
        invariant
            chars@ == s@,
            i <= chars@.len(),
            forall|k: int| 0 <= k < i ==> is_hex(#[trigger] s@[k]),
        decreases chars@.len() - i,
    {
        let c: char = chars[i];
        if !(('0' <= c && c <= '9') || ('a' <= c && c <= 'f') || ('A' <= c && c <= 'F')) {
            assert(!is_hex(s@[i as int]));
            return false;
        }
        i = i + 1;
    }
    true
}

/// Hexadecimal numbers are made of hexadecimal digits alone.
pub proof fn lemma_hexadecimal_digits(n: nat)
    ensures
        all_hex(hexadecimal(n)),
        hexadecimal(n).len() > 0,
        n < 0x1_0000_0000_0000_0000 ==> hexadecimal(n).len() <= 16,
    decreases n,
{
    lemma_hexadecimal_length(n, 16);
    lemma_hexadecimal_chars(n);
}

proof fn lemma_hexadecimal_chars(n: nat)
    ensures
        all_hex(hexadecimal(n)),
        hexadecimal(n).len() > 0,
    decreases n,
{
    if n >= 16 {
        lemma_hexadecimal_chars(n / 16);
    }
}

proof fn lemma_hexadecimal_length(n: nat, digits: nat)
    requires
        digits >= 1,
    ensures
        n < vstd::arithmetic::power::pow(16, digits) ==> hexadecimal(n).len() <= digits,
        vstd::arithmetic::power::pow(16, 16) == 0x1_0000_0000_0000_0000,
    decreases digits,
{
    broadcast use vstd::arithmetic::power::lemma_pow0;

    reveal(vstd::arithmetic::power::pow);
    assert(vstd::arithmetic::power::pow(16, 16) == 0x1_0000_0000_0000_0000) by {
        reveal_with_fuel(vstd::arithmetic::power::pow, 17);
    }
    if digits > 1 {
        lemma_hexadecimal_length(n / 16, (digits - 1) as nat);
        assert(vstd::arithmetic::power::pow(16, digits) == 16 * vstd::arithmetic::power::pow(
            16,
            (digits - 1) as nat,
        ));
    } else {
        assert(vstd::arithmetic::power::pow(16, 1) == 16) by {
            reveal_with_fuel(vstd::arithmetic::power::pow, 3);
        }
    }
}

proof fn lemma_digits_natural(s: Seq<char>, radix: int)
    requires
        1 <= radix,
    ensures
        digits_value(s, radix) matches Some(v) ==> v >= 0,
    decreases s.len(),
{
    if s.len() > 0 {
        lemma_digits_natural(s.drop_last(), radix);
        if let (Some(high), Some(low)) = (
            digits_value(s.drop_last(), radix),
            digit_value(s.last(), radix),
        ) {
            assert(high * radix >= 0) by (nonlinear_arith)
                requires
                    high >= 0,
                    radix >= 1,
            ;
        }
    }
}

/// A number that is read lies in its range.
pub proof fn lemma_number_range(s: Seq<char>, radix: int, max: int)
    requires
        1 <= radix,
    ensures
        number_value(s, radix, max) matches Some(v) ==> 0 <= v <= max,
{
    let digits = if s.len() > 0 && s[0] == '+' { s.drop_first() } else { s };
    lemma_digits_natural(digits, radix);
}

/// The text without the characters `c` that it ends with.
pub open spec fn without_end(s: Seq<char>, c: char) -> Seq<char>
    decreases s.len(),
{
    if s.len() > 0 && s.last() == c {
        without_end(s.drop_last(), c)
    } else {
        s
    }
}

/// The text without the characters `c` that it ends with.
pub fn drop_end(s: String, c: char) -> (r: String)
    ensures
        r@ == without_end(s@, c),
{
    let chars = text::chars(s.as_str());
    let mut n: usize = chars.len();
    assert(s@.take(n as int) =~= s@);
    while n > 0 && chars[n - 1] == c
        invariant
            chars@ == s@,
            n <= chars@.len(),
            without_end(s@, c) == without_end(s@.take(n as int), c),
        decreases n,
    {
        assert(s@.take(n as int).drop_last() =~= s@.take(n - 1));
        assert(s@.take(n as int).last() == s@[n - 1]);
        n = n - 1;
    }
    assert(n > 0 ==> s@.take(n as int).last() == s@[n - 1]);
    let rest = part(&chars, 0, n);
    assert(rest@ =~= s@.take(n as int));
    rest
}

/// What stands before the first `c`: everything where there is none.
pub open spec fn before(s: Seq<char>, c: char) -> Seq<char>
    decreases s.len(),
{
    if s.len() == 0 || s[0] == c {
        Seq::empty()
    } else {
        seq![s[0]] + before(s.drop_first(), c)
    }
}

/// What stands behind the first `c`: nothing where there is none.
pub open spec fn behind(s: Seq<char>, c: char) -> Seq<char>
    decreases s.len(),
{
    if s.len() == 0 {
        Seq::empty()
    } else if s[0] == c {
        s.drop_first()
    } else {
        behind(s.drop_first(), c)
    }
}

/// The character stands nowhere in the text.
pub open spec fn lacks(s: Seq<char>, c: char) -> bool {
    forall|i: int| 0 <= i < s.len() ==> #[trigger] s[i] != c
}

/// A text is parted at the first `c`.
pub proof fn lemma_parted(a: Seq<char>, c: char, b: Seq<char>)
    requires
        lacks(a, c),
    ensures
        before(a + seq![c] + b, c) == a,
        behind(a + seq![c] + b, c) == b,
    decreases a.len(),
{
    let s = a + seq![c] + b;
    if a.len() == 0 {
        assert(s[0] == c);
        assert(s.drop_first() =~= b);
        assert(before(s, c) =~= a);
    } else {
        let rest = a.drop_first();
        assert forall|i: int| 0 <= i < rest.len() implies #[trigger] rest[i] != c by {
            assert(rest[i] == a[i + 1]);
        }
        assert(s[0] == a[0]);
        assert(s.drop_first() =~= rest + seq![c] + b);
        lemma_parted(rest, c, b);
        assert(seq![a[0]] + rest =~= a);
    }
}

/// The integer that a text writes in decimal, with a minus sign below zero.
pub open spec fn integer_value(s: Seq<char>) -> Option<int> {
    if s.len() > 0 && s[0] == '-' {
        match digits_value(s.drop_first(), 10) {
            Some(v) => if s.len() > 1 {
                Some(-v)
            } else {
                None
            },
            None => None,
        }
    } else if s.len() > 0 {
        digits_value(s, 10)
    } else {
        None
    }
}

/// Two integers that a text writes around the first `c`.
pub open spec fn integers_around(s: Seq<char>, c: char) -> Option<(int, int)> {
    match (integer_value(before(s, c)), integer_value(behind(s, c))) {
        (Some(a), Some(b)) => Some((a, b)),
        _ => None,
    }
}

/// A natural number in decimal is read back, and made of digits.
pub proof fn decimals_are_read_back(n: nat)
    ensures
        digits_value(text::decimal(n), 10) == Some(n as int),
        text::decimal(n).len() > 0,
        forall|i: int|
            0 <= i < text::decimal(n).len() ==> '0' <= #[trigger] text::decimal(n)[i] <= '9',
    decreases n,
{
    let s = text::decimal(n);
    if n < 10 {
        assert(s.drop_last() =~= Seq::empty());
        assert(s.last() == text::digit_char(n as int));
        assert(digits_value(s.drop_last(), 10) == Some(0int));
    } else {
        decimals_are_read_back(n / 10);
        assert(s.drop_last() =~= text::decimal(n / 10));
        assert(s.last() == text::digit_char((n % 10) as int));
        assert forall|i: int| 0 <= i < s.len() implies '0' <= #[trigger] s[i] <= '9' by {
            if i < s.len() - 1 {
                assert(s[i] == text::decimal(n / 10)[i]);
            }
        }
    }
}

/// An integer in decimal is read back, and made of digits and a sign.
pub proof fn signed_decimals_are_read_back(n: int)
    ensures
        integer_value(text::signed_decimal(n)) == Some(n),
        forall|i: int|
            0 <= i < text::signed_decimal(n).len() ==> '0' <= #[trigger] text::signed_decimal(n)[i]
                <= '9' || text::signed_decimal(n)[i] == '-',
{
    let s = text::signed_decimal(n);
    if n < 0 {
        decimals_are_read_back((-n) as nat);
        assert(s.drop_first() =~= text::decimal((-n) as nat));
        assert forall|i: int| 0 <= i < s.len() implies '0' <= #[trigger] s[i] <= '9' || s[i]
            == '-' by {
            if i > 0 {
                assert(s[i] == text::decimal((-n) as nat)[i - 1]);
            }
        }
    } else {
        decimals_are_read_back(n as nat);
        assert('0' <= s[0] <= '9');
    }
}

/// Two integers around a character that neither has are read back.
pub proof fn lemma_integers_around(a: int, c: char, b: int)
    requires
        c < '0' || c > '9',
        c != '-',
    ensures
        integers_around(
            text::signed_decimal(a) + seq![c] + text::signed_decimal(b),
            c,
        ) == Some((a, b)),
{
    signed_decimals_are_read_back(a);
    signed_decimals_are_read_back(b);
    lemma_parted(text::signed_decimal(a), c, text::signed_decimal(b));
}

/// A natural number in hexadecimal is read back.
pub proof fn hexadecimals_are_read_back(n: nat)
    ensures
        digits_value(hexadecimal(n), 16) == Some(n as int),
        hexadecimal(n).len() > 0,
    decreases n,
{
    let s = hexadecimal(n);
    if n < 16 {
        assert(s.drop_last() =~= Seq::empty());
        assert(s.last() == crate::json::hex_digit(n as int));
        assert(digits_value(s.drop_last(), 16) == Some(0int));
        assert(digit_value(s.last(), 16) == Some(n as int));
    } else {
        hexadecimals_are_read_back(n / 16);
        assert(s.drop_last() =~= hexadecimal(n / 16));
        assert(s.last() == crate::json::hex_digit((n % 16) as int));
        assert(digit_value(s.last(), 16) == Some((n % 16) as int));
    }
}

} // verus!
