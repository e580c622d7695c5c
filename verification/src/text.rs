//! Character-level building blocks of the timestamp grammar: decimal
//! numerals, zero-padded rendering and separator search.

use vstd::prelude::*;

verus! {

/// Whether `c` is one of the ASCII digits `0` to `9`.
pub open spec fn is_digit(c: char) -> bool {
    '0' <= c && c <= '9'
}

/// The value of an ASCII digit; zero for any other character.
pub open spec fn digit_value(c: char) -> nat {
    if is_digit(c) {
        (c as int - '0' as int) as nat
    } else {
        0
    }
}

/// The ASCII digit that stands for `d`, for `d` below ten.
pub open spec fn digit_char(d: nat) -> char {
    ((d + 48) as u8) as char
}

/// Whether every character of `s` is an ASCII digit.
pub open spec fn all_digits(s: Seq<char>) -> bool {
    forall|i: int| 0 <= i < s.len() ==> is_digit(#[trigger] s[i])
}

/// The number that the digits of `s` denote in base ten, most significant
/// digit first.
pub open spec fn digits_value(s: Seq<char>) -> nat
    decreases s.len(),
{
    if s.len() == 0 {
        0
    } else {
        digits_value(s.drop_last()) * 10 + digit_value(s.last())
    }
}

/// The digits of a numeral: the text itself, without one leading plus sign
/// where there is one.
pub open spec fn numeral_digits(s: Seq<char>) -> Seq<char> {
    if s.len() > 0 && s[0] == '+' {
        s.subrange(1, s.len() as int)
    } else {
        s
    }
}

/// The value of a non-negative decimal numeral: an optional plus sign, then
/// one or more ASCII digits whose value fits in 64 bits. `None` for every
/// other text.
pub open spec fn numeral_value(s: Seq<char>) -> Option<u64> {
    let d = numeral_digits(s);
    if d.len() > 0 && all_digits(d) && digits_value(d) <= u64::MAX {
        Some(digits_value(d) as u64)
    } else {
        None
    }
}

/// The decimal digits of `n`, padded with zeros on the left to at least
/// `width` characters and never truncated.
pub open spec fn decimal(n: nat, width: nat) -> Seq<char>
    decreases n, width,
{
    if n < 10 && width <= 1 {
        seq![digit_char(n)]
    } else {
        decimal(n / 10, if width > 0 { (width - 1) as nat } else { 0 }).push(digit_char(n % 10))
    }
}

/// The least index at or after `from` at which `s` holds `c`, or the length
/// of `s` where there is none.
pub open spec fn find_from(s: Seq<char>, c: char, from: int) -> int
    decreases s.len() - from,
{
    if from < 0 || from >= s.len() {
        s.len() as int
    } else if s[from] == c {
        from
    } else {
        find_from(s, c, from + 1)
    }
}

/// The text `s` without the carriage returns at its end.
pub open spec fn trimmed(s: Seq<char>) -> Seq<char>
    decreases s.len(),
{
    if s.len() > 0 && s.last() == '\r' {
        trimmed(s.drop_last())
    } else {
        s
    }
}

/// A longer run of digits denotes at least what its prefix denotes.
pub proof fn lemma_digits_value_prefix(s: Seq<char>, k: int)
    requires
        0 <= k <= s.len(),
    ensures
        digits_value(s.take(k)) <= digits_value(s),
    decreases s.len() - k,
{
    if k == s.len() {
        assert(s.take(k) =~= s);
    } else {
        lemma_digits_value_prefix(s.drop_last(), k);
        assert(s.drop_last().take(k) =~= s.take(k));
    }
}

/// `find_from` is pinned down by the first match: nothing before `at`
/// matches, and `at` is a match or the end.
pub proof fn lemma_find_from(s: Seq<char>, c: char, from: int, at: int)
    requires
        0 <= from <= at <= s.len(),
        forall|j: int| from <= j < at ==> s[j] != c,
        at == s.len() || s[at] == c,
    ensures
        find_from(s, c, from) == at,
    decreases at - from,
{
    if from < at {
        lemma_find_from(s, c, from + 1, at);
    }
}

/// The padded decimal form of `n` is a run of at least one digit that
/// denotes `n`.
pub proof fn lemma_decimal(n: nat, width: nat)
    ensures
        decimal(n, width).len() >= 1,
        decimal(n, width).len() >= width,
        all_digits(decimal(n, width)),
        digits_value(decimal(n, width)) == n,
    decreases n, width,
{
    if n < 10 && width <= 1 {
        let s = decimal(n, width);
        assert(s.drop_last() =~= Seq::<char>::empty());
        assert(digits_value(s.drop_last()) == 0);
    } else {
        let rest: nat = if width > 0 { (width - 1) as nat } else { 0 };
        lemma_decimal(n / 10, rest);
        let s = decimal(n, width);
        assert(s.drop_last() =~= decimal(n / 10, rest));
        assert(s.last() == digit_char(n % 10));
    }
}

/// A number below a hundred has exactly two digits at width two, and one
/// below a thousand exactly three at width three.
pub proof fn lemma_decimal_width(n: nat)
    ensures
        n < 100 ==> decimal(n, 2).len() == 2,
        n < 1000 ==> decimal(n, 3).len() == 3,
{
    reveal_with_fuel(decimal, 4);
}

/// The padded decimal form of a number that fits in 64 bits is a numeral
/// with that value.
pub proof fn lemma_decimal_numeral(n: nat, width: nat)
    requires
        n <= u64::MAX,
    ensures
        numeral_value(decimal(n, width)) == Some(n as u64),
        !decimal(n, width).contains(':'),
        !decimal(n, width).contains(','),
{
    lemma_decimal(n, width);
    let s = decimal(n, width);
    assert(is_digit(s[0]));
}

/// The characters of `s`, in order.
pub fn chars_of(s: &str) -> (out: Vec<char>)
    ensures
        out@ == s@,
{
    let mut out: Vec<char> = Vec::new();
    for c in it: s.chars()
        invariant
            out@ == it.seq().take(it.index() as int),
            it.seq() == s@,
    {
        out.push(c);
    }
    out
}

/// A copy of the characters of `s` from `from` up to `to`.
pub fn sub_vec(s: &Vec<char>, from: usize, to: usize) -> (out: Vec<char>)
    requires
        from <= to <= s.len(),
    ensures
        out@ == s@.subrange(from as int, to as int),
{
    let mut out: Vec<char> = Vec::new();
    let mut i: usize = from;
    while i < to
        invariant
            from <= i <= to <= s.len(),
            out@ == s@.subrange(from as int, i as int),
        decreases to - i,
    {
        out.push(s[i]);
        assert(out@ =~= s@.subrange(from as int, i + 1));
        i += 1;
    }
    out
}

/// The length of `s` without the carriage returns at its end.
pub fn trimmed_len(s: &Vec<char>) -> (n: usize)
    ensures
        n <= s.len(),
        trimmed(s@) == s@.subrange(0, n as int),
{
    let mut n: usize = s.len();
    assert(s@.subrange(0, n as int) =~= s@);
    while n > 0 && s[n - 1] == '\r'
        invariant
            n <= s.len(),
            trimmed(s@) == trimmed(s@.subrange(0, n as int)),
        decreases n,
    {
        assert(s@.subrange(0, n as int).drop_last() =~= s@.subrange(0, n - 1));
        n -= 1;
    }
    n
}

/// A copy of `s` without the carriage returns at its end.
pub fn trim_end(s: &Vec<char>) -> (r: Vec<char>)
    ensures
        r@ == trimmed(s@),
{
    sub_vec(s, 0, trimmed_len(s))
}

/// The text `s` without the carriage returns at its end.
pub fn trim_cr(s: &str) -> (r: &str)
    ensures
        r@ == trimmed(s@),
{
    let chars = chars_of(s);
    s.substring_char(0, trimmed_len(&chars))
}

/// Reads the numeral that `s` holds between `from` and `to`.
pub fn parse_numeral(s: &Vec<char>, from: usize, to: usize) -> (r: Option<u64>)
    requires
        from <= to <= s.len(),
    ensures
        r == numeral_value(s@.subrange(from as int, to as int)),
{
    let ghost text = s@.subrange(from as int, to as int);
    let start: usize = if from < to && s[from] == '+' { from + 1 } else { from };
    let ghost d = numeral_digits(text);
    assert(d =~= s@.subrange(start as int, to as int));
    if start == to {
        return None;
    }
    let mut acc: u64 = 0;
    let mut i: usize = start;
    assert(d.take(0) =~= Seq::<char>::empty());
    while i < to
        invariant
            from <= start <= i <= to <= s.len(),
            d == numeral_digits(s@.subrange(from as int, to as int)),
            d == s@.subrange(start as int, to as int),
            acc == digits_value(d.take(i - start)),
            forall|k: int| 0 <= k < i - start ==> is_digit(#[trigger] d[k]),
        decreases to - i,
    {
        let c: char = s[i];
        if c < '0' || c > '9' {
            assert(!is_digit(d[i - start]));
            return None;
        }
        let v: u64 = (c as u32 - '0' as u32) as u64;
        proof {
            let next = d.take(i - start + 1);
            assert(next.drop_last() =~= d.take(i - start));
            assert(next.last() == c);
            assert(digits_value(next) == acc * 10 + v);
            lemma_digits_value_prefix(d, i - start + 1);
        }
        if acc > (u64::MAX - v) / 10 {
            return None;
        }
        acc = acc * 10 + v;
        i += 1;
    }
    assert(d.take(i - start) =~= d);
    Some(acc)
}

/// Finds the first `c` in `s` at or after `from`; the length of `s` where
/// there is none.
pub fn find_char(s: &Vec<char>, c: char, from: usize) -> (r: usize)
    ensures
        r == find_from(s@, c, from as int),
        r <= s.len(),
        from <= s.len() ==> from <= r,
{
    let mut i: usize = from;
    while i < s.len()
        invariant
            find_from(s@, c, from as int) == find_from(s@, c, i as int),
            from <= i,
        decreases s.len() - i,
    {
        if s[i] == c {
            return i;
        }
        i += 1;
    }
    s.len()
}

/// The one-character text of a decimal digit.
fn digit_text(d: u64) -> (r: &'static str)
    requires
        d < 10,
    ensures
        r@ == seq![digit_char(d as nat)],
{
    proof {
        reveal_strlit("0");
        reveal_strlit("1");
        reveal_strlit("2");
        reveal_strlit("3");
        reveal_strlit("4");
        reveal_strlit("5");
        reveal_strlit("6");
        reveal_strlit("7");
        reveal_strlit("8");
        reveal_strlit("9");
    }
    let r = match d {
        0 => "0",
        1 => "1",
        2 => "2",
        3 => "3",
        4 => "4",
        5 => "5",
        6 => "6",
        7 => "7",
        8 => "8",
        _ => "9",
    };
    assert(r@ =~= seq![digit_char(d as nat)]);
    r
}

/// Appends `n` to `out` in decimal, padded with zeros to at least `width`
/// characters.
pub fn push_decimal(out: &mut String, n: u64, width: usize)
    ensures
        final(out)@ == old(out)@ + decimal(n as nat, width as nat),
    decreases n, width,
{
    if n < 10 && width <= 1 {
        out.append(digit_text(n));
    } else {
        let rest: usize = if width > 0 { width - 1 } else { 0 };
        push_decimal(out, n / 10, rest);
        out.append(digit_text(n % 10));
        assert(out@ =~= old(out)@ + decimal(n as nat, width as nat));
    }
}

} // verus!
