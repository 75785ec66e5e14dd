//! Timecodes: `[[H:]MM:]SS[.fraction]` strings and bare nanosecond counts.
use vstd::prelude::*;

use crate::error::Error;

verus! {

pub const NANOS_PER_SECOND: u64 = 1_000_000_000;

pub const FRACTION_DIGITS: usize = 9;

pub open spec fn is_digit(c: char) -> bool {
    '0' <= c && c <= '9'
}

pub open spec fn all_digits(s: Seq<char>) -> bool {
    forall|i: int| 0 <= i < s.len() ==> is_digit(#[trigger] s[i])
}

pub open spec fn digit_value(c: char) -> nat {
    (c as u32 - '0' as u32) as nat
}

/// The number that a string of decimal digits denotes.
pub open spec fn digits_value(s: Seq<char>) -> nat
    decreases s.len(),
{
    if s.len() == 0 {
        0
    } else {
        digits_value(s.drop_last()) * 10 + digit_value(s.last())
    }
}

/// A non-empty string of decimal digits.
pub open spec fn is_numeral(s: Seq<char>) -> bool {
    s.len() > 0 && all_digits(s)
}

/// `s` cut at every `sep`; always at least one piece.
pub open spec fn split(s: Seq<char>, sep: char) -> Seq<Seq<char>>
    decreases s.len(),
{
    if s.len() == 0 {
        seq![Seq::<char>::empty()]
    } else {
        let p = split(s.drop_last(), sep);
        if s.last() == sep {
            p.push(Seq::<char>::empty())
        } else {
            p.update(p.len() - 1, p.last().push(s.last()))
        }
    }
}

/// The fraction right-aligned into nine digits: kept up to nine, padded with zeros.
pub open spec fn fraction_field(f: Seq<char>) -> Seq<char> {
    Seq::new(FRACTION_DIGITS as nat, |i: int| if i < f.len() { f[i] } else { '0' })
}

/// Only the first nine digits of a fraction carry time.
pub open spec fn valid_fraction(f: Seq<char>) -> bool {
    all_digits(fraction_field(f))
}

/// The sub-second part of the seconds group, if any.
pub open spec fn fraction_of(seconds_group: Seq<char>) -> Option<Seq<char>> {
    let parts = split(seconds_group, '.');
    if parts.len() > 1 {
        Some(parts[1])
    } else {
        None
    }
}

/// The groups of a timecode, seconds group last.
pub open spec fn groups_of(s: Seq<char>) -> Seq<Seq<char>> {
    split(s, ':')
}

/// Hours, minutes and whole seconds groups, each present or not, and the fraction.
pub open spec fn hours_group(s: Seq<char>) -> Option<Seq<char>> {
    let g = groups_of(s);
    if g.len() >= 3 {
        Some(g[g.len() - 3])
    } else {
        None
    }
}

pub open spec fn minutes_group(s: Seq<char>) -> Option<Seq<char>> {
    let g = groups_of(s);
    if g.len() >= 2 {
        Some(g[g.len() - 2])
    } else {
        None
    }
}

pub open spec fn seconds_group(s: Seq<char>) -> Seq<char> {
    groups_of(s).last()
}

pub open spec fn whole_seconds(s: Seq<char>) -> Seq<char> {
    split(seconds_group(s), '.')[0]
}

pub open spec fn optional_numeral(g: Option<Seq<char>>) -> bool {
    match g {
        Some(x) => is_numeral(x),
        None => true,
    }
}

pub open spec fn optional_value(g: Option<Seq<char>>) -> nat {
    match g {
        Some(x) => digits_value(x),
        None => 0,
    }
}

/// The groups of `s` are well formed: every present group is a numeral and the
/// fraction, if written, has digits in its first nine places.
pub open spec fn timecode_well_formed(s: Seq<char>) -> bool {
    &&& optional_numeral(hours_group(s))
    &&& optional_numeral(minutes_group(s))
    &&& is_numeral(whole_seconds(s))
    &&& match fraction_of(seconds_group(s)) {
        Some(f) => valid_fraction(f),
        None => true,
    }
}

/// Nanoseconds denoted by a well-formed timecode.
pub open spec fn timecode_nanos(s: Seq<char>) -> nat {
    let frac = match fraction_of(seconds_group(s)) {
        Some(f) => digits_value(fraction_field(f)),
        None => 0,
    };
    (optional_value(hours_group(s)) * 3600 * NANOS_PER_SECOND + optional_value(minutes_group(s))
        * 60 * NANOS_PER_SECOND + digits_value(whole_seconds(s)) * NANOS_PER_SECOND + frac) as nat
}

/// What parsing a timecode string yields.
pub open spec fn timecode_result(s: Seq<char>) -> Result<u64, Error> {
    if timecode_well_formed(s) && timecode_nanos(s) <= u64::MAX {
        Ok(timecode_nanos(s) as u64)
    } else {
        Err(Error::InvalidTimestamp)
    }
}

/// What parsing a bare numeral yields: a count of nanoseconds.
pub open spec fn numeral_result(s: Seq<char>) -> Result<u64, Error> {
    if is_numeral(s) && digits_value(s) <= u64::MAX {
        Ok(digits_value(s) as u64)
    } else {
        Err(Error::InvalidTimestamp)
    }
}

pub proof fn lemma_digits_value_push(s: Seq<char>, c: char)
    ensures
        digits_value(s.push(c)) == digits_value(s) * 10 + digit_value(c),
{
    assert(s.push(c).drop_last() =~= s);
}

pub proof fn lemma_split_nonempty(s: Seq<char>, sep: char)
    ensures
        split(s, sep).len() >= 1,
    decreases s.len(),
{
    if s.len() > 0 {
        lemma_split_nonempty(s.drop_last(), sep);
    }
}

/// A longer prefix of a numeral never denotes less.
pub proof fn lemma_digits_value_prefix(s: Seq<char>, i: int, j: int)
    requires
        0 <= i <= j <= s.len(),
    ensures
        digits_value(s.take(i)) <= digits_value(s.take(j)),
    decreases j - i,
{
    if i < j {
        lemma_digits_value_prefix(s, i, j - 1);
        assert(s.take(j).drop_last() =~= s.take(j - 1));
    }
}

/// The characters of `s`, in order.
pub fn chars_of(s: &str) -> (r: Vec<char>)
    ensures
        r@ == s@,
{
    let n = s.unicode_len();
    let mut r: Vec<char> = Vec::new();
    let mut i: usize = 0;
    while i < n
        invariant
            n == s@.len(),
            i <= n,
            r@ == s@.take(i as int),
        decreases n - i,
    {
        r.push(s.get_char(i));
        i = i + 1;
        assert(r@ =~= s@.take(i as int));
    }
    assert(r@ =~= s@);
    r
}

/// The number that `s` denotes if it is a numeral that fits in a `u64`.
pub fn parse_numeral(s: &Vec<char>) -> (r: Option<u64>)
    ensures
        r matches Some(v) ==> is_numeral(s@) && v == digits_value(s@),
        r is None ==> !is_numeral(s@) || digits_value(s@) > u64::MAX,
{
    if s.len() == 0 {
        return None;
    }
    let mut acc: u64 = 0;
    let mut i: usize = 0;
    while i < s.len()
        invariant
            i <= s@.len(),
            all_digits(s@.take(i as int)),
            acc == digits_value(s@.take(i as int)),
        decreases s@.len() - i,
    {
        let c = s[i];
        if !('0' <= c && c <= '9') {
            assert(!all_digits(s@));
            return None;
        }
        proof {
            lemma_digits_value_push(s@.take(i as int), c);
            assert(s@.take(i as int).push(c) =~= s@.take(i + 1));
        }
        let d = (c as u32 - '0' as u32) as u64;
        if acc > (u64::MAX - d) / 10 {
            proof {
                lemma_digits_value_prefix(s@, i + 1, s@.len() as int);
                assert(s@.take(s@.len() as int) =~= s@);
            }
            return None;
        }
        acc = acc * 10 + d;
        i = i + 1;
        assert(all_digits(s@.take(i as int)));
    }
    assert(s@.take(s@.len() as int) =~= s@);
    Some(acc)
}

/// Nanoseconds of a fraction right-aligned into nine digits, if those digits are all digits.
pub fn parse_fraction(f: &Vec<char>) -> (r: Option<u64>)
    ensures
        r matches Some(v) ==> valid_fraction(f@) && v == digits_value(fraction_field(f@)) && v
            < NANOS_PER_SECOND,
        r is None ==> !valid_fraction(f@),
{
    let ghost field = fraction_field(f@);
    let mut acc: u64 = 0;
    let ghost mut bound: nat = 1;
    let mut i: usize = 0;
    while i < FRACTION_DIGITS
        invariant
            i <= FRACTION_DIGITS,
            field == fraction_field(f@),
            all_digits(field.take(i as int)),
            acc == digits_value(field.take(i as int)),
            acc < bound,
            bound == if i == 0 { 1nat } else if i == 1 { 10nat } else if i == 2 { 100nat } else if i
                == 3 { 1_000nat } else if i == 4 { 10_000nat } else if i == 5 { 100_000nat } else if i
                == 6 { 1_000_000nat } else if i == 7 { 10_000_000nat } else if i == 8 {
                100_000_000nat
            } else { 1_000_000_000nat },
        decreases FRACTION_DIGITS - i,
    {
        let c = if i < f.len() {
            f[i]
        } else {
            '0'
        };
        assert(c == field[i as int]);
        if !('0' <= c && c <= '9') {
            assert(!all_digits(field));
            return None;
        }
        proof {
            lemma_digits_value_push(field.take(i as int), c);
            assert(field.take(i as int).push(c) =~= field.take(i + 1));
        }
        let d = (c as u32 - '0' as u32) as u64;
        assert(acc * 10 + d < bound * 10) by (nonlinear_arith)
            requires
                acc < bound,
                d <= 9,
        ;
        acc = acc * 10 + d;
        proof {
            bound = bound * 10;
        }
        i = i + 1;
        assert(all_digits(field.take(i as int)));
    }
    assert(field.take(9) =~= field);
    Some(acc)
}

/// `s` cut at every `sep`, in order.
pub fn split_chars(s: &Vec<char>, sep: char) -> (r: Vec<Vec<char>>)
    ensures
        r@.len() == split(s@, sep).len(),
        forall|k: int| 0 <= k < r@.len() ==> (#[trigger] r@[k])@ == split(s@, sep)[k],
{
    let mut groups: Vec<Vec<char>> = Vec::new();
    let mut cur: Vec<char> = Vec::new();
    let mut i: usize = 0;
    while i < s.len()
        invariant
            i <= s@.len(),
            groups@.len() + 1 == split(s@.take(i as int), sep).len(),
            forall|k: int|
                0 <= k < groups@.len() ==> (#[trigger] groups@[k])@ == split(
                    s@.take(i as int),
                    sep,
                )[k],
            cur@ == split(s@.take(i as int), sep).last(),
        decreases s@.len() - i,
    {
        let c = s[i];
        assert(s@.take(i + 1).drop_last() =~= s@.take(i as int));
        if c == sep {
            groups.push(cur);
            cur = Vec::new();
        } else {
            cur.push(c);
        }
        i = i + 1;
    }
    groups.push(cur);
    assert(s@.take(s@.len() as int) =~= s@);
    groups
}

/// Parses a timecode `[[H:]MM:]SS[.fraction]` into nanoseconds.
///
/// Groups are read from the right: seconds, then minutes, then hours; groups further
/// left are not read. The fraction is right-aligned into nine digits, so `5` is half a
/// second, and digits past the ninth are dropped.
pub fn parse_timecode(s: &str) -> (r: Result<u64, Error>)
    ensures
        r == timecode_result(s@),
{
    let chars = chars_of(s);
    let groups = split_chars(&chars, ':');
    proof {
        lemma_split_nonempty(s@, ':');
    }
    let n = groups.len();
    let sec_parts = split_chars(&groups[n - 1], '.');
    proof {
        lemma_split_nonempty(groups@[n - 1]@, '.');
    }
    let whole = parse_numeral(&sec_parts[0]);
    let hours = if n >= 3 {
        parse_numeral(&groups[n - 3])
    } else {
        Some(0)
    };
    let minutes = if n >= 2 {
        parse_numeral(&groups[n - 2])
    } else {
        Some(0)
    };
    let frac = if sec_parts.len() > 1 {
        parse_fraction(&sec_parts[1])
    } else {
        Some(0)
    };
    assert(seconds_group(s@) == groups@[n - 1]@);
    match (hours, minutes, whole, frac) {
        (Some(h), Some(m), Some(w), Some(f)) => {
            proof {
                assert(timecode_well_formed(s@));
            }
            match (
                h.checked_mul(3600 * NANOS_PER_SECOND),
                m.checked_mul(60 * NANOS_PER_SECOND),
                w.checked_mul(NANOS_PER_SECOND),
            ) {
                (Some(hn), Some(mn), Some(wn)) => {
                    match hn.checked_add(mn) {
                        Some(a) => match a.checked_add(wn) {
                            Some(b) => match b.checked_add(f) {
                                Some(t) => Ok(t),
                                None => Err(Error::InvalidTimestamp),
                            },
                            None => Err(Error::InvalidTimestamp),
                        },
                        None => Err(Error::InvalidTimestamp),
                    }
                },
                _ => Err(Error::InvalidTimestamp),
            }
        },
        _ => {
            proof {
                if timecode_well_formed(s@) {
                    assert(timecode_nanos(s@) > u64::MAX);
                }
            }
            Err(Error::InvalidTimestamp)
        },
    }
}

} // verus!
