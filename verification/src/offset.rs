//! Signed offsets: a shift in time, forward or back, as a count of
//! milliseconds and in its text form.

use vstd::prelude::*;
use crate::block::Block;
use crate::error::ParseError;
use crate::text::{chars_of, sub_vec};
use crate::time::{max_millis, time_text_value, StartEnd, Time};

verus! {

/// The signed number of milliseconds in `h` hours, `m` minutes, `s` seconds
/// and `ms` milliseconds.
pub open spec fn dur_millis(h: int, m: int, s: int, ms: int) -> int {
    h * 3_600_000 + m * 60_000 + s * 1000 + ms
}

/// The shift in milliseconds that an offset text denotes: an instant of the
/// form `HH:MM:SS,mmm` shifts forward, and the same with one `n` in front of
/// it shifts back. `None` where the rest is no instant or the shift does not
/// fit in 64 bits with a sign.
pub open spec fn offset_value(s: Seq<char>) -> Option<int> {
    let back = s.len() > 0 && s[0] == 'n';
    let rest = if back { s.subrange(1, s.len() as int) } else { s };
    match time_text_value(rest) {
        Some(n) => if n <= i64::MAX {
            Some(if back { -(n as int) } else { n as int })
        } else {
            None
        },
        None => None,
    }
}

/// The signed number of milliseconds in `h` hours, `m` minutes, `s` seconds
/// and `ms` milliseconds.
pub fn dur(h: i64, m: i64, s: i64, ms: i64) -> (r: i64)
    requires
        i64::MIN <= dur_millis(h as int, m as int, s as int, ms as int) <= i64::MAX,
    ensures
        r == dur_millis(h as int, m as int, s as int, ms as int),
{
    let total: i128 = h as i128 * 3_600_000 + m as i128 * 60_000 + s as i128 * 1000 + ms as i128;
    total as i64
}

/// Reads a signed offset: `HH:MM:SS,mmm`, with an `n` in front of it for a
/// shift back. Returns the shift in milliseconds.
pub fn dur_from_str(ds: &str) -> (r: Result<i64, ParseError>)
    ensures
        r == match offset_value(ds@) {
            Some(v) => Ok::<i64, ParseError>(v as i64),
            None => Err(ParseError::InvalidTimeString),
        },
{
    let chars = chars_of(ds);
    let back: bool = chars.len() > 0 && chars[0] == 'n';
    let rest = if back { sub_vec(&chars, 1, chars.len()) } else { chars };
    assert(rest@ =~= if back { ds@.subrange(1, ds@.len() as int) } else { ds@ });
    match Time::from_chars(&rest) {
        Some(t) => {
            let n: u128 = t.as_millis();
            proof {
                Time::lemma_of_millis(time_text_value(rest@)->Some_0);
            }
            if n > 9_223_372_036_854_775_807 {
                return Err(ParseError::InvalidTimeString);
            }
            let secs: i64 = (n / 1000) as i64;
            let millis: i64 = (n % 1000) as i64;
            if back {
                Ok(dur(0, 0, -secs, -millis))
            } else {
                Ok(dur(0, 0, secs, millis))
            }
        },
        None => Err(ParseError::InvalidTimeString),
    }
}

/// The instant that is as far from zero as the shift `offset`.
pub open spec fn amount(offset: int) -> Time {
    Time::of_millis(
        (if offset < 0 {
            -offset
        } else {
            offset
        }) as nat,
    )
}

/// Whether the range `r` can be shifted by `offset` milliseconds: a shift
/// back always can, a shift forward where both sides stay within the range
/// of an instant.
pub open spec fn can_shift(r: StartEnd, offset: int) -> bool {
    offset < 0 || r.can_add(StartEnd(amount(offset), amount(offset)))
}

/// The range `r` shifted by `offset` milliseconds: forward where the offset
/// is positive, and back where it is negative, each side stopping at zero.
pub open spec fn shifted(r: StartEnd, offset: int) -> StartEnd {
    if offset < 0 {
        r.difference(StartEnd(amount(offset), amount(offset)))
    } else {
        r.sum(StartEnd(amount(offset), amount(offset)))
    }
}

/// Shifting a range forward and then back by as much gives the range back.
pub proof fn lemma_shift_forward_and_back(r: StartEnd, offset: int)
    requires
        r.wf(),
        0 <= offset <= max_millis(),
        can_shift(r, offset),
    ensures
        shifted(shifted(r, offset), -offset) == r,
{
    Time::lemma_of_millis(offset as nat);
    r.lemma_add_then_sub(amount(offset));
}

/// Shifting a range back and then forward by as much gives the range back
/// where neither side was stopped at zero.
pub proof fn lemma_shift_back_and_forward(r: StartEnd, offset: int)
    requires
        r.wf(),
        0 <= offset <= max_millis(),
        r.0@ >= offset,
        r.1@ >= offset,
    ensures
        offset > 0 ==> shifted(r, -offset) == r.difference(
            StartEnd(amount(offset), amount(offset)),
        ),
        can_shift(shifted(r, -offset), offset),
        shifted(shifted(r, -offset), offset) == r,
{
    Time::lemma_of_millis(offset as nat);
    r.lemma_sub_then_add(amount(offset));
    if offset == 0 {
        r.0.lemma_view();
        r.1.lemma_view();
    }
}

/// The range shifted by `offset` milliseconds on both sides: forward where
/// the offset is positive, and back where it is negative, each side stopping
/// at zero. `None` where a shift forward leads beyond the range of an
/// instant.
pub fn shift(r: StartEnd, offset: i64) -> (out: Option<StartEnd>)
    requires
        r.wf(),
    ensures
        out == if can_shift(r, offset as int) {
            Some(shifted(r, offset as int))
        } else {
            None
        },
        out matches Some(t) ==> t.wf(),
{
    if offset < 0 {
        let back: u64 = (-(offset + 1)) as u64 + 1;
        Some(r - Time::from_millis(back))
    } else {
        let by = Time::from_millis(offset as u64);
        r.checked_add(StartEnd(by, by))
    }
}

/// The block shown `offset` milliseconds later, or earlier where the offset
/// is negative, and never before zero. `None` where a shift forward leads
/// beyond the range of an instant.
pub fn add_offset_to(block: Block, offset: i64) -> (r: Option<Block>)
    requires
        block.wf(),
    ensures
        r == if can_shift(block.start_end, offset as int) {
            Some(Block { start_end: shifted(block.start_end, offset as int), content: block.content })
        } else {
            None
        },
        r matches Some(b) ==> b.wf(),
{
    match shift(block.start_end, offset) {
        Some(start_end) => Some(Block { start_end, content: block.content }),
        None => None,
    }
}

} // verus!
