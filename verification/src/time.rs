//! Timestamps with millisecond resolution, their arithmetic and their
//! `HH:MM:SS,mmm` text form.

use vstd::prelude::*;
use vstd::std_specs::ops::AddSpecImpl;
use vstd::std_specs::ops::SubSpecImpl;
use vstd::std_specs::convert::FromSpecImpl;
use crate::error::ParseError;
use crate::text::{
    chars_of, decimal, digits_value, find_char, find_from, lemma_decimal, lemma_decimal_numeral,
    lemma_decimal_width, lemma_find_from, numeral_value, parse_numeral, push_decimal, sub_vec,
    trim_end, trimmed,
};

verus! {

/// The largest instant that a `Time` can hold, in milliseconds.
pub open spec fn max_millis() -> nat {
    (u64::MAX * 1000 + 999) as nat
}

/// The milliseconds in `h` hours, `m` minutes, `s` seconds and `ms`
/// milliseconds. No field is limited to its usual range.
pub open spec fn hms_millis(h: nat, m: nat, s: nat, ms: nat) -> nat {
    ((h * 60 + m) * 60 + s) * 1000 + ms
}

/// The whole hours in `n` milliseconds.
pub open spec fn hours(n: nat) -> nat {
    n / 1000 / 3600
}

/// The whole minutes in `n` milliseconds beside the hours.
pub open spec fn minutes(n: nat) -> nat {
    n / 1000 / 60 % 60
}

/// The whole seconds in `n` milliseconds beside the minutes.
pub open spec fn seconds(n: nat) -> nat {
    n / 1000 % 60
}

/// The instant `n` milliseconds after zero, written `HH:MM:SS,mmm`. Hours,
/// minutes and seconds have at least two digits and milliseconds three; the
/// hours grow beyond two digits where they need to.
pub open spec fn time_text(n: nat) -> Seq<char> {
    decimal(hours(n), 2) + seq![':'] + decimal(minutes(n), 2) + seq![':'] + decimal(
        seconds(n),
        2,
    ) + seq![','] + decimal(n % 1000, 3)
}

/// The four fields of a text of the form `H:M:S,ms`: what stands before the
/// first colon, between it and the next colon, between that and the comma
/// that follows it, and after that comma. `None` where one of the three
/// separators is missing.
pub open spec fn time_fields(s: Seq<char>) -> Option<(Seq<char>, Seq<char>, Seq<char>, Seq<char>)> {
    let i = find_from(s, ':', 0);
    let j = find_from(s, ':', i + 1);
    let k = find_from(s, ',', j + 1);
    if k < s.len() {
        Some(
            (
                s.subrange(0, i),
                s.subrange(i + 1, j),
                s.subrange(j + 1, k),
                s.subrange(k + 1, s.len() as int),
            ),
        )
    } else {
        None
    }
}

/// The instant, in milliseconds, that a text of the form `H:M:S,ms` denotes:
/// each of its four fields is a numeral. `None` where the text has another
/// form or the instant lies beyond `max_millis()`.
pub open spec fn time_text_value(s: Seq<char>) -> Option<nat> {
    match time_fields(s) {
        Some((h, m, sec, ms)) => match (
            numeral_value(h),
            numeral_value(m),
            numeral_value(sec),
            numeral_value(ms),
        ) {
            (Some(h), Some(m), Some(sec), Some(ms)) => {
                let n = hms_millis(h as nat, m as nat, sec as nat, ms as nat);
                if n <= max_millis() {
                    Some(n)
                } else {
                    None
                }
            },
            _ => None,
        },
        None => None,
    }
}

/// An instant: a duration since zero, never negative, in whole milliseconds.
#[derive(Debug, Clone, Copy, PartialEq, Eq, PartialOrd, Ord, Structural)]
pub struct Time {
    secs: u64,
    millis: u32,
}

impl View for Time {
    type V = nat;

    /// The instant in milliseconds.
    closed spec fn view(&self) -> nat {
        (self.secs * 1000 + self.millis) as nat
    }
}

impl Time {
    /// Whether the value is in normal form: less than a second beside the
    /// whole seconds. Every `Time` that this library hands out is.
    pub closed spec fn wf(self) -> bool {
        self.millis < 1000
    }

    /// The `Time` that stands for `n` milliseconds.
    pub closed spec fn of_millis(n: nat) -> Time {
        Time { secs: (n / 1000) as u64, millis: (n % 1000) as u32 }
    }

    /// The text form of this instant.
    pub open spec fn text(self) -> Seq<char> {
        time_text(self@)
    }

    /// The instant that `s` denotes, if it denotes one.
    pub open spec fn parse(s: Seq<char>) -> Option<Time> {
        match time_text_value(s) {
            Some(n) => Some(Time::of_millis(n)),
            None => None,
        }
    }

    /// This instant less `rhs`, or zero where `rhs` is not earlier.
    pub open spec fn saturating_sub(self, rhs: Time) -> Time {
        if self@ > rhs@ {
            Time::of_millis((self@ - rhs@) as nat)
        } else {
            Time::of_millis(0)
        }
    }

    /// `of_millis` gives a well-formed value whose view is `n`, for every
    /// `n` in range.
    pub proof fn lemma_of_millis(n: nat)
        requires
            n <= max_millis(),
        ensures
            Time::of_millis(n).wf(),
            Time::of_millis(n)@ == n,
    {
    }

    /// A well-formed value is in range and is the one that `of_millis`
    /// gives for its view: two well-formed values with one view are equal.
    pub proof fn lemma_view(self)
        requires
            self.wf(),
        ensures
            self@ <= max_millis(),
            Time::of_millis(self@) == self,
    {
    }

    /// The instant `h:m:s,ms`, or `None` where it is beyond the range.
    pub fn checked_from(h_m_s_ms: (u64, u64, u64, u64)) -> (r: Option<Time>)
        ensures
            ({
                let n = hms_millis(
                    h_m_s_ms.0 as nat,
                    h_m_s_ms.1 as nat,
                    h_m_s_ms.2 as nat,
                    h_m_s_ms.3 as nat,
                );
                r == if n <= max_millis() {
                    Some(Time::of_millis(n))
                } else {
                    None
                }
            }),
            r matches Some(t) ==> t.wf(),
    {
        let (h, m, s, ms) = h_m_s_ms;
        let total: u128 = ((h as u128 * 60 + m as u128) * 60 + s as u128) * 1000 + ms as u128;
        let secs: u128 = total / 1000;
        if secs > 18_446_744_073_709_551_615 {
            return None;
        }
        Some(Time { secs: secs as u64, millis: (total % 1000) as u32 })
    }

    /// The instant `h:m:s,ms`.
    pub fn from(h_m_s_ms: (u64, u64, u64, u64)) -> (r: Time)
        requires
            hms_millis(
                h_m_s_ms.0 as nat,
                h_m_s_ms.1 as nat,
                h_m_s_ms.2 as nat,
                h_m_s_ms.3 as nat,
            ) <= max_millis(),
        ensures
            r == Time::of_millis(
                hms_millis(
                    h_m_s_ms.0 as nat,
                    h_m_s_ms.1 as nat,
                    h_m_s_ms.2 as nat,
                    h_m_s_ms.3 as nat,
                ),
            ),
            r.wf(),
            r@ == hms_millis(
                h_m_s_ms.0 as nat,
                h_m_s_ms.1 as nat,
                h_m_s_ms.2 as nat,
                h_m_s_ms.3 as nat,
            ),
    {
        let (h, m, s, ms) = h_m_s_ms;
        let total: u128 = ((h as u128 * 60 + m as u128) * 60 + s as u128) * 1000 + ms as u128;
        Time { secs: (total / 1000) as u64, millis: (total % 1000) as u32 }
    }

    /// Reads an instant from the characters of its text form.
    pub fn from_chars(s: &Vec<char>) -> (r: Option<Time>)
        ensures
            r == Time::parse(s@),
            r matches Some(t) ==> t.wf(),
    {
        let n: usize = s.len();
        let i: usize = find_char(s, ':', 0);
        if i >= n {
            return None;
        }
        let j: usize = find_char(s, ':', i + 1);
        if j >= n {
            return None;
        }
        let k: usize = find_char(s, ',', j + 1);
        if k >= n {
            return None;
        }
        let h = parse_numeral(s, 0, i);
        let m = parse_numeral(s, i + 1, j);
        let sec = parse_numeral(s, j + 1, k);
        let ms = parse_numeral(s, k + 1, n);
        match (h, m, sec, ms) {
            (Some(h), Some(m), Some(sec), Some(ms)) => {
                let r = Time::checked_from((h, m, sec, ms));
                proof {
                    let total = hms_millis(h as nat, m as nat, sec as nat, ms as nat);
                    if total <= max_millis() {
                        Time::lemma_of_millis(total);
                    }
                }
                r
            },
            _ => None,
        }
    }

    /// Reads an instant from text of the form `HH:MM:SS,mmm`.
    pub fn from_str(s: &str) -> (r: Result<Time, ParseError>)
        ensures
            r == match Time::parse(s@) {
                Some(t) => Ok::<Time, ParseError>(t),
                None => Err(ParseError::InvalidTimeString),
            },
            r matches Ok(t) ==> t.wf(),
    {
        let chars = chars_of(s);
        match Time::from_chars(&chars) {
            Some(t) => Ok(t),
            None => Err(ParseError::InvalidTimeString),
        }
    }

    /// Appends the text form of this instant to `out`.
    pub fn write_to(&self, out: &mut String)
        requires
            self.wf(),
        ensures
            final(out)@ == old(out)@ + self.text(),
    {
        proof {
            reveal_strlit(":");
            reveal_strlit(",");
        }
        let ghost n = self@;
        assert(n / 1000 == self.secs && n % 1000 == self.millis);
        push_decimal(out, self.secs / 3600, 2);
        out.append(":");
        push_decimal(out, self.secs / 60 % 60, 2);
        out.append(":");
        push_decimal(out, self.secs % 60, 2);
        out.append(",");
        push_decimal(out, self.millis as u64, 3);
        assert(out@ =~= old(out)@ + (decimal(hours(n), 2) + seq![':'] + decimal(minutes(n), 2)
            + seq![':'] + decimal(seconds(n), 2) + seq![','] + decimal(n % 1000, 3)));
    }

    /// The text form of this instant, `HH:MM:SS,mmm`.
    pub fn to_string(&self) -> (r: String)
        requires
            self.wf(),
        ensures
            r@ == self.text(),
    {
        let mut out = String::new();
        self.write_to(&mut out);
        assert(out@ =~= self.text());
        out
    }

    /// The instant `ms` milliseconds after zero.
    pub fn from_millis(ms: u64) -> (r: Time)
        ensures
            r == Time::of_millis(ms as nat),
            r.wf(),
            r@ == ms,
    {
        Time { secs: ms / 1000, millis: (ms % 1000) as u32 }
    }

    /// This instant in milliseconds.
    pub fn as_millis(&self) -> (r: u128)
        requires
            self.wf(),
        ensures
            r == self@,
    {
        self.secs as u128 * 1000 + self.millis as u128
    }

    /// The whole seconds of this instant.
    pub fn as_secs(&self) -> (r: u64)
        requires
            self.wf(),
        ensures
            r == self@ / 1000,
    {
        self.secs
    }

    /// The milliseconds beside the whole seconds.
    pub fn subsec_millis(&self) -> (r: u32)
        requires
            self.wf(),
        ensures
            r == self@ % 1000,
    {
        self.millis
    }

    /// The part of this instant beside the whole seconds, in nanoseconds.
    pub fn subsec_nanos(&self) -> (r: u32)
        requires
            self.wf(),
        ensures
            r == (self@ % 1000) * 1_000_000,
    {
        self.millis * 1_000_000
    }

    /// The sum of two instants, or `None` where it is beyond the range.
    pub fn checked_add(self, rhs: Time) -> (r: Option<Time>)
        requires
            self.wf(),
            rhs.wf(),
        ensures
            r == if self@ + rhs@ <= max_millis() {
                Some(Time::of_millis(self@ + rhs@))
            } else {
                None
            },
            r matches Some(t) ==> t.wf() && t@ == self@ + rhs@,
    {
        let total: u128 = (self.secs as u128 + rhs.secs as u128) * 1000 + self.millis as u128
            + rhs.millis as u128;
        let secs: u128 = total / 1000;
        if secs > 18_446_744_073_709_551_615 {
            return None;
        }
        Some(Time { secs: secs as u64, millis: (total % 1000) as u32 })
    }
}

impl Default for Time {
    /// The zero instant.
    fn default() -> (r: Time)
        ensures
            r == Time::of_millis(0),
            r.wf(),
            r@ == 0,
    {
        Time { secs: 0, millis: 0 }
    }
}

impl AddSpecImpl for Time {
    open spec fn obeys_add_spec() -> bool {
        true
    }

    open spec fn add_req(self, rhs: Time) -> bool {
        self.wf() && rhs.wf() && self@ + rhs@ <= max_millis()
    }

    open spec fn add_spec(self, rhs: Time) -> Time {
        Time::of_millis(self@ + rhs@)
    }
}

impl core::ops::Add for Time {
    type Output = Time;

    /// The sum of two instants.
    fn add(self, rhs: Time) -> (r: Time)
        ensures
            r.wf(),
            r@ == self@ + rhs@,
    {
        let millis: u32 = self.millis + rhs.millis;
        if millis >= 1000 {
            Time { secs: self.secs + rhs.secs + 1, millis: millis - 1000 }
        } else {
            Time { secs: self.secs + rhs.secs, millis }
        }
    }
}

impl SubSpecImpl for Time {
    open spec fn obeys_sub_spec() -> bool {
        true
    }

    open spec fn sub_req(self, rhs: Time) -> bool {
        self.wf() && rhs.wf()
    }

    open spec fn sub_spec(self, rhs: Time) -> Time {
        self.saturating_sub(rhs)
    }
}

impl core::ops::Sub for Time {
    type Output = Time;

    /// This instant less `rhs`; zero where `rhs` is not earlier.
    fn sub(self, rhs: Time) -> (r: Time)
        ensures
            r.wf(),
            r@ == if self@ > rhs@ { self@ - rhs@ } else { 0 },
    {
        if self.secs > rhs.secs || (self.secs == rhs.secs && self.millis > rhs.millis) {
            if self.millis >= rhs.millis {
                Time { secs: self.secs - rhs.secs, millis: self.millis - rhs.millis }
            } else {
                Time { secs: self.secs - rhs.secs - 1, millis: self.millis + 1000 - rhs.millis }
            }
        } else {
            Time { secs: 0, millis: 0 }
        }
    }
}

/// Four fields put together with their separators come apart again, where
/// the first two hold no colon and the third no comma.
pub proof fn lemma_time_fields(h: Seq<char>, m: Seq<char>, sec: Seq<char>, ms: Seq<char>)
    requires
        !h.contains(':'),
        !m.contains(':'),
        !sec.contains(','),
    ensures
        time_fields(h + seq![':'] + m + seq![':'] + sec + seq![','] + ms) == Some((h, m, sec, ms)),
{
    let s = h + seq![':'] + m + seq![':'] + sec + seq![','] + ms;
    let i = h.len() as int;
    let j = i + 1 + m.len();
    let k = j + 1 + sec.len();
    assert(s.len() == k + 1 + ms.len());
    assert forall|x: int| 0 <= x < i implies s[x] != ':' by {
        assert(s[x] == h[x]);
    }
    assert(s[i] == ':');
    lemma_find_from(s, ':', 0, i);
    assert forall|x: int| i + 1 <= x < j implies s[x] != ':' by {
        assert(s[x] == m[x - i - 1]);
    }
    assert(s[j] == ':');
    lemma_find_from(s, ':', i + 1, j);
    assert forall|x: int| j + 1 <= x < k implies s[x] != ',' by {
        assert(s[x] == sec[x - j - 1]);
    }
    assert(s[k] == ',');
    lemma_find_from(s, ',', j + 1, k);
    assert(s.subrange(0, i) =~= h);
    assert(s.subrange(i + 1, j) =~= m);
    assert(s.subrange(j + 1, k) =~= sec);
    assert(s.subrange(k + 1, s.len() as int) =~= ms);
}

/// An instant is the sum of its hours, minutes, seconds and milliseconds.
pub proof fn lemma_hms_millis(n: nat)
    ensures
        hms_millis(hours(n), minutes(n), seconds(n), n % 1000) == n,
        n <= max_millis() ==> hours(n) <= u64::MAX,
{
    let secs: int = n as int / 1000;
    let mins: int = secs / 60;
    vstd::arithmetic::div_mod::lemma_div_denominator(secs, 60, 60);
    assert(secs / 3600 == mins / 60);
    assert(mins == 60 * (mins / 60) + mins % 60);
    assert(secs == 60 * mins + secs % 60);
    assert(n == 1000 * secs + n % 1000);
}

/// The hours of a text form are never cut short, whatever their number of
/// digits: they denote the whole hours of the instant. After them come
/// exactly ten characters: two digits each for the minutes and the seconds,
/// three for the milliseconds, and the three separators.
pub proof fn lemma_time_text_width(n: nat)
    ensures
        digits_value(decimal(hours(n), 2)) == hours(n),
        decimal(hours(n), 2).len() >= 2,
        minutes(n) < 60,
        seconds(n) < 60,
        time_text(n).len() == decimal(hours(n), 2).len() + 10,
{
    lemma_decimal(hours(n), 2);
    lemma_decimal_width(minutes(n));
    lemma_decimal_width(seconds(n));
    lemma_decimal_width(n % 1000);
}

/// Reading the text form of an instant gives the instant back.
pub proof fn lemma_time_text_value(n: nat)
    requires
        n <= max_millis(),
    ensures
        time_text_value(time_text(n)) == Some(n),
{
    lemma_hms_millis(n);
    lemma_decimal_numeral(hours(n), 2);
    lemma_decimal_numeral(minutes(n), 2);
    lemma_decimal_numeral(seconds(n), 2);
    lemma_decimal_numeral(n % 1000, 3);
    lemma_time_fields(
        decimal(hours(n), 2),
        decimal(minutes(n), 2),
        decimal(seconds(n), 2),
        decimal(n % 1000, 3),
    );
}

impl Time {
    /// Round trip: the text form of a well-formed instant reads back as that
    /// instant.
    pub proof fn lemma_parse_text(self)
        requires
            self.wf(),
        ensures
            Time::parse(self.text()) == Some(self),
    {
        self.lemma_view();
        lemma_time_text_value(self@);
    }

    /// Adding an offset and taking it away again gives the instant back.
    pub proof fn lemma_add_then_sub(self, offset: Time)
        requires
            self.wf(),
            offset.wf(),
            self@ + offset@ <= max_millis(),
        ensures
            Time::of_millis(self@ + offset@).saturating_sub(offset) == self,
    {
    }

    /// Taking an offset away and adding it again gives the instant back
    /// where the offset is not later than the instant.
    pub proof fn lemma_sub_then_add(self, offset: Time)
        requires
            self.wf(),
            offset.wf(),
            self@ >= offset@,
        ensures
            self.saturating_sub(offset)@ + offset@ == self@,
            Time::of_millis(self.saturating_sub(offset)@ + offset@) == self,
    {
    }

    /// Taking a later or equal instant away leaves zero.
    pub proof fn lemma_sub_later(self, rhs: Time)
        requires
            self@ <= rhs@,
        ensures
            self.saturating_sub(rhs) == Time::of_millis(0),
            self.saturating_sub(rhs)@ == 0,
            self.saturating_sub(rhs).wf(),
    {
    }
}

/// The text that stands between the two instants of a range: ` --> `.
pub open spec fn arrow() -> Seq<char> {
    seq![' ', '-', '-', '>', ' ']
}

/// Whether `s` holds the arrow at index `i`.
pub open spec fn is_arrow_at(s: Seq<char>, i: int) -> bool {
    0 <= i && i + 5 <= s.len() && s.subrange(i, i + 5) == arrow()
}

/// The least index at or after `from` at which `s` holds the arrow, or the
/// length of `s` where there is none.
pub open spec fn find_arrow(s: Seq<char>, from: int) -> int
    decreases s.len() - from,
{
    if from < 0 || from >= s.len() {
        s.len() as int
    } else if is_arrow_at(s, from) {
        from
    } else {
        find_arrow(s, from + 1)
    }
}

/// The two instants, in milliseconds, that a text of the form
/// `<time> --> <time>` denotes: the text is divided at its first arrow and
/// both sides must denote an instant. `None` for every other text.
pub open spec fn range_text_value(s: Seq<char>) -> Option<(nat, nat)> {
    let i = find_arrow(s, 0);
    if i < s.len() {
        match (
            time_text_value(s.subrange(0, i)),
            time_text_value(s.subrange(i + 5, s.len() as int)),
        ) {
            (Some(a), Some(b)) => Some((a, b)),
            _ => None,
        }
    } else {
        None
    }
}

/// `find_arrow` is pinned down by the first match.
pub proof fn lemma_find_arrow(s: Seq<char>, from: int, at: int)
    requires
        0 <= from <= at <= s.len(),
        forall|j: int| from <= j < at ==> !is_arrow_at(s, j),
        at == s.len() || is_arrow_at(s, at),
    ensures
        find_arrow(s, from) == at,
    decreases at - from,
{
    if from < at {
        lemma_find_arrow(s, from + 1, at);
    }
}

/// No character of the text form of an instant is a space.
pub proof fn lemma_time_text_no_space(n: nat)
    ensures
        !time_text(n).contains(' '),
{
    let ht = decimal(hours(n), 2);
    let mt = decimal(minutes(n), 2);
    let st = decimal(seconds(n), 2);
    let mst = decimal(n % 1000, 3);
    lemma_decimal(hours(n), 2);
    lemma_decimal(minutes(n), 2);
    lemma_decimal(seconds(n), 2);
    lemma_decimal(n % 1000, 3);
    let s = time_text(n);
    let i = ht.len() as int;
    let j = i + 1 + mt.len();
    let k = j + 1 + st.len();
    assert forall|x: int| 0 <= x < s.len() implies s[x] != ' ' by {
        if x < i {
            assert(s[x] == ht[x]);
        } else if x == i {
        } else if x < j {
            assert(s[x] == mt[x - i - 1]);
        } else if x == j {
        } else if x < k {
            assert(s[x] == st[x - j - 1]);
        } else if x == k {
        } else {
            assert(s[x] == mst[x - k - 1]);
        }
    }
}

/// The text form of an instant ends in a digit, so that nothing is trimmed
/// from it.
pub proof fn lemma_time_text_trimmed(n: nat)
    ensures
        trimmed(time_text(n)) == time_text(n),
{
    lemma_decimal(n % 1000, 3);
    let ms = decimal(n % 1000, 3);
    assert(time_text(n).last() == ms[ms.len() - 1]);
}

/// Two texts without a space, put together with an arrow, come apart again
/// at that arrow.
pub proof fn lemma_find_arrow_between(a: Seq<char>, b: Seq<char>)
    requires
        !a.contains(' '),
    ensures
        find_arrow(a + arrow() + b, 0) == a.len(),
        (a + arrow() + b).subrange(0, a.len() as int) == a,
        (a + arrow() + b).subrange(a.len() as int + 5, (a + arrow() + b).len() as int) == b,
{
    let s = a + arrow() + b;
    let i = a.len() as int;
    assert forall|x: int| 0 <= x < i implies !is_arrow_at(s, x) by {
        if is_arrow_at(s, x) {
            assert(s.subrange(x, x + 5)[0] == ' ');
            assert(s[x] == a[x]);
        }
    }
    assert(s.subrange(i, i + 5) =~= arrow());
    lemma_find_arrow(s, 0, i);
    assert(s.subrange(0, i) =~= a);
    assert(s.subrange(i + 5, s.len() as int) =~= b);
}

/// Reading the text form of a range gives both instants back.
pub proof fn lemma_range_text_value(a: nat, b: nat)
    requires
        a <= max_millis(),
        b <= max_millis(),
    ensures
        range_text_value(time_text(a) + arrow() + time_text(b)) == Some((a, b)),
{
    lemma_time_text_no_space(a);
    lemma_find_arrow_between(time_text(a), time_text(b));
    lemma_time_text_value(a);
    lemma_time_text_value(b);
}

/// Finds the first arrow in `s`; the length of `s` where there is none.
pub fn find_arrow_in(s: &Vec<char>) -> (r: usize)
    ensures
        r == find_arrow(s@, 0),
        r <= s.len(),
        r < s.len() ==> r + 5 <= s.len(),
{
    let n: usize = s.len();
    let mut i: usize = 0;
    while i < n && !(n - i >= 5 && s[i] == ' ' && s[i + 1] == '-' && s[i + 2] == '-' && s[i + 3]
        == '>' && s[i + 4] == ' ')
        invariant
            i <= n == s.len(),
            find_arrow(s@, 0) == find_arrow(s@, i as int),
        decreases n - i,
    {
        proof {
            if is_arrow_at(s@, i as int) {
                let w = s@.subrange(i as int, i + 5);
                assert(w[0] == ' ' && w[1] == '-' && w[2] == '-' && w[3] == '>' && w[4] == ' ');
            }
        }
        i += 1;
    }
    if i < n {
        assert(s@.subrange(i as int, i + 5) =~= arrow());
    }
    i
}

/// The interval during which a block is shown: its first and its last
/// instant. Nothing asks that the first is the earlier one.
#[derive(Debug, Clone, Copy, PartialEq, Eq, PartialOrd, Ord, Structural)]
pub struct StartEnd(pub Time, pub Time);

impl StartEnd {
    /// Whether both instants are well-formed.
    pub open spec fn wf(self) -> bool {
        self.0.wf() && self.1.wf()
    }

    /// The text form of this range, `<start> --> <end>`.
    pub open spec fn text(self) -> Seq<char> {
        self.0.text() + arrow() + self.1.text()
    }

    /// The range that `s` denotes, if it denotes one.
    pub open spec fn parse(s: Seq<char>) -> Option<StartEnd> {
        match range_text_value(s) {
            Some((a, b)) => Some(StartEnd(Time::of_millis(a), Time::of_millis(b))),
            None => None,
        }
    }

    /// Whether `rhs` can be added to this range on both sides.
    pub open spec fn can_add(self, rhs: StartEnd) -> bool {
        self.0@ + rhs.0@ <= max_millis() && self.1@ + rhs.1@ <= max_millis()
    }

    /// The range with `rhs` added, side by side.
    pub open spec fn sum(self, rhs: StartEnd) -> StartEnd {
        StartEnd(Time::of_millis(self.0@ + rhs.0@), Time::of_millis(self.1@ + rhs.1@))
    }

    /// The range with `rhs` taken away, side by side; each side stops at
    /// zero.
    pub open spec fn difference(self, rhs: StartEnd) -> StartEnd {
        StartEnd(self.0.saturating_sub(rhs.0), self.1.saturating_sub(rhs.1))
    }

    /// Adding an offset and taking it away again gives the range back.
    pub proof fn lemma_add_then_sub(self, offset: Time)
        requires
            self.wf(),
            offset.wf(),
            self.can_add(StartEnd(offset, offset)),
        ensures
            self.sum(StartEnd(offset, offset)).difference(StartEnd(offset, offset)) == self,
    {
        self.0.lemma_add_then_sub(offset);
        self.1.lemma_add_then_sub(offset);
    }

    /// Taking an offset away and adding it again gives the range back where
    /// neither side was stopped at zero.
    pub proof fn lemma_sub_then_add(self, offset: Time)
        requires
            self.wf(),
            offset.wf(),
            self.0@ >= offset@,
            self.1@ >= offset@,
        ensures
            self.difference(StartEnd(offset, offset)).can_add(StartEnd(offset, offset)),
            self.difference(StartEnd(offset, offset)).sum(StartEnd(offset, offset)) == self,
    {
        self.0.lemma_sub_then_add(offset);
        self.1.lemma_sub_then_add(offset);
    }

    /// Round trip: the text form of a well-formed range reads back as that
    /// range.
    pub proof fn lemma_parse_text(self)
        requires
            self.wf(),
        ensures
            StartEnd::parse(self.text()) == Some(self),
    {
        self.0.lemma_view();
        self.1.lemma_view();
        lemma_range_text_value(self.0@, self.1@);
    }

    /// The text form of a well-formed range also reads back as that range
    /// where carriage returns at the end of either side are passed over.
    pub proof fn lemma_time_line_text(self)
        requires
            self.wf(),
        ensures
            time_line_value(self.text()) == Some(self),
    {
        self.0.lemma_parse_text();
        self.1.lemma_parse_text();
        lemma_time_text_no_space(self.0@);
        lemma_find_arrow_between(time_text(self.0@), time_text(self.1@));
        lemma_time_text_trimmed(self.0@);
        lemma_time_text_trimmed(self.1@);
    }

    /// Reads a range from the characters of its text form.
    pub fn from_chars(s: &Vec<char>) -> (r: Option<StartEnd>)
        ensures
            r == StartEnd::parse(s@),
            r matches Some(t) ==> t.wf(),
    {
        let n: usize = s.len();
        let i: usize = find_arrow_in(s);
        if i >= n {
            return None;
        }
        let left = sub_vec(s, 0, i);
        let right = sub_vec(s, i + 5, n);
        match (Time::from_chars(&left), Time::from_chars(&right)) {
            (Some(a), Some(b)) => Some(StartEnd(a, b)),
            _ => None,
        }
    }

    /// The range with `rhs` added side by side, or `None` where a side is
    /// beyond the range of an instant.
    pub fn checked_add(self, rhs: StartEnd) -> (r: Option<StartEnd>)
        requires
            self.wf(),
            rhs.wf(),
        ensures
            r == if self.can_add(rhs) {
                Some(self.sum(rhs))
            } else {
                None
            },
            r matches Some(t) ==> t.wf(),
    {
        match (self.0.checked_add(rhs.0), self.1.checked_add(rhs.1)) {
            (Some(start), Some(end)) => Some(StartEnd(start, end)),
            _ => None,
        }
    }

    /// Reads a range from text of the form `<time> --> <time>`.
    pub fn from_str(s: &str) -> (r: Result<StartEnd, ParseError>)
        ensures
            r == match StartEnd::parse(s@) {
                Some(t) => Ok::<StartEnd, ParseError>(t),
                None => Err(ParseError::InvalidTimeLine),
            },
            r matches Ok(t) ==> t.wf(),
    {
        let chars = chars_of(s);
        match StartEnd::from_chars(&chars) {
            Some(t) => Ok(t),
            None => Err(ParseError::InvalidTimeLine),
        }
    }

    /// Appends the text form of this range to `out`.
    pub fn write_to(&self, out: &mut String)
        requires
            self.wf(),
        ensures
            final(out)@ == old(out)@ + self.text(),
    {
        proof {
            reveal_strlit(" --> ");
        }
        self.0.write_to(out);
        out.append(" --> ");
        self.1.write_to(out);
        assert(" --> "@ =~= arrow());
        assert(out@ =~= old(out)@ + self.text());
    }

    /// The text form of this range, `<start> --> <end>`.
    pub fn to_string(&self) -> (r: String)
        requires
            self.wf(),
        ensures
            r@ == self.text(),
    {
        let mut out = String::new();
        self.write_to(&mut out);
        assert(out@ =~= self.text());
        out
    }
}

impl Default for StartEnd {
    /// The range from zero to zero.
    fn default() -> (r: StartEnd)
        ensures
            r == StartEnd(Time::of_millis(0), Time::of_millis(0)),
    {
        StartEnd(Time::default(), Time::default())
    }
}

impl FromSpecImpl<Time> for StartEnd {
    open spec fn obeys_from_spec() -> bool {
        true
    }

    open spec fn from_spec(t: Time) -> StartEnd {
        StartEnd(t, t)
    }
}

impl From<Time> for StartEnd {
    /// The range that starts and ends at `t`.
    fn from(t: Time) -> StartEnd {
        StartEnd(t, t)
    }
}

impl AddSpecImpl for StartEnd {
    open spec fn obeys_add_spec() -> bool {
        true
    }

    open spec fn add_req(self, rhs: StartEnd) -> bool {
        self.wf() && rhs.wf() && self.can_add(rhs)
    }

    open spec fn add_spec(self, rhs: StartEnd) -> StartEnd {
        self.sum(rhs)
    }
}

impl core::ops::Add for StartEnd {
    type Output = StartEnd;

    /// Adds `rhs` side by side.
    fn add(self, rhs: StartEnd) -> (r: StartEnd)
        ensures
            r.wf(),
    {
        StartEnd(self.0 + rhs.0, self.1 + rhs.1)
    }
}

impl AddSpecImpl<Time> for StartEnd {
    open spec fn obeys_add_spec() -> bool {
        true
    }

    open spec fn add_req(self, rhs: Time) -> bool {
        self.wf() && rhs.wf() && self.can_add(StartEnd(rhs, rhs))
    }

    open spec fn add_spec(self, rhs: Time) -> StartEnd {
        self.sum(StartEnd(rhs, rhs))
    }
}

impl core::ops::Add<Time> for StartEnd {
    type Output = StartEnd;

    /// Adds `rhs` to both sides.
    fn add(self, rhs: Time) -> (r: StartEnd)
        ensures
            r.wf(),
    {
        StartEnd(self.0 + rhs, self.1 + rhs)
    }
}

impl SubSpecImpl for StartEnd {
    open spec fn obeys_sub_spec() -> bool {
        true
    }

    open spec fn sub_req(self, rhs: StartEnd) -> bool {
        self.wf() && rhs.wf()
    }

    open spec fn sub_spec(self, rhs: StartEnd) -> StartEnd {
        self.difference(rhs)
    }
}

impl core::ops::Sub for StartEnd {
    type Output = StartEnd;

    /// Takes `rhs` away side by side; each side stops at zero.
    fn sub(self, rhs: StartEnd) -> (r: StartEnd)
        ensures
            r.wf(),
    {
        StartEnd(self.0 - rhs.0, self.1 - rhs.1)
    }
}

impl SubSpecImpl<Time> for StartEnd {
    open spec fn obeys_sub_spec() -> bool {
        true
    }

    open spec fn sub_req(self, rhs: Time) -> bool {
        self.wf() && rhs.wf()
    }

    open spec fn sub_spec(self, rhs: Time) -> StartEnd {
        self.difference(StartEnd(rhs, rhs))
    }
}

impl core::ops::Sub<Time> for StartEnd {
    type Output = StartEnd;

    /// Takes `rhs` away from both sides; each side stops at zero.
    fn sub(self, rhs: Time) -> (r: StartEnd)
        ensures
            r.wf(),
    {
        StartEnd(self.0 - rhs, self.1 - rhs)
    }
}

/// The start and the end of a block: another name for `StartEnd`.
pub type Times = StartEnd;

/// The range that a line of the form `<time> --> <time>` denotes, where
/// either side may end in carriage returns.
pub open spec fn time_line_value(s: Seq<char>) -> Option<StartEnd> {
    let i = find_arrow(s, 0);
    if i < s.len() {
        match (
            Time::parse(trimmed(s.subrange(0, i))),
            Time::parse(trimmed(s.subrange(i + 5, s.len() as int))),
        ) {
            (Some(a), Some(b)) => Some(StartEnd(a, b)),
            _ => None,
        }
    } else {
        None
    }
}

/// Reads the range of a block from a line of the form `<time> --> <time>`,
/// where either side may end in carriage returns.
pub fn parse_time_line(s: &str) -> (r: Result<Times, ParseError>)
    ensures
        r == match time_line_value(s@) {
            Some(t) => Ok::<Times, ParseError>(t),
            None => Err(ParseError::InvalidTimeLine),
        },
        r matches Ok(t) ==> t.wf(),
{
    let chars = chars_of(s);
    let n: usize = chars.len();
    let i: usize = find_arrow_in(&chars);
    if i >= n {
        return Err(ParseError::InvalidTimeLine);
    }
    let left = trim_end(&sub_vec(&chars, 0, i));
    let right = trim_end(&sub_vec(&chars, i + 5, n));
    match (Time::from_chars(&left), Time::from_chars(&right)) {
        (Some(a), Some(b)) => Ok(StartEnd(a, b)),
        _ => Err(ParseError::InvalidTimeLine),
    }
}

} // verus!
