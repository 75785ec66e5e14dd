//! One placed media reference: its trim points, its effects and its place on the timeline.
use vstd::prelude::*;

use crate::doc::{effects_doc_result, Value};
use crate::effects::{gap, trims_applied, EffectView, TimedEffects};
use crate::error::Error;
use crate::timestamp::{chars_of, numeral_result, parse_numeral};

verus! {

/// An entry's length: `out - in` (in-point 0 when not given) where an out-point is known,
/// else the length of the whole source.
pub open spec fn entry_duration(in_point: Option<u64>, out_point: Option<u64>, native: u64) -> u64 {
    match out_point {
        Some(o) => gap(
            o,
            match in_point {
                Some(i) => i,
                None => 0,
            },
        ),
        None => native,
    }
}

pub open spec fn marker_at(s: Seq<char>, i: int) -> bool {
    0 <= i && i + 3 <= s.len() && s[i] == '#' && s[i + 1] == 't' && s[i + 2] == '='
}

/// First position at or after `from` where `#t=` starts.
pub open spec fn find_marker(s: Seq<char>, from: int) -> Option<int>
    decreases s.len() - from,
{
    if from < 0 || from + 3 > s.len() {
        None
    } else if marker_at(s, from) {
        Some(from)
    } else {
        find_marker(s, from + 1)
    }
}

/// First position at or after `from` that holds `,`.
pub open spec fn find_comma(s: Seq<char>, from: int) -> Option<int>
    decreases s.len() - from,
{
    if from < 0 || from >= s.len() {
        None
    } else if s[from] == ',' {
        Some(from)
    } else {
        find_comma(s, from + 1)
    }
}

/// The media path of a source reference: everything before `#t=`.
pub open spec fn path_of(s: Seq<char>) -> Seq<char> {
    match find_marker(s, 0) {
        Some(p) => s.take(p),
        None => s,
    }
}

/// The bound before the comma: absent when empty.
pub open spec fn trim_start_result(t: Seq<char>) -> Result<Option<u64>, Error> {
    let st = match find_comma(t, 0) {
        Some(q) => t.take(q),
        None => t,
    };
    if st.len() == 0 {
        Ok(None)
    } else {
        match numeral_result(st) {
            Ok(v) => Ok(Some(v)),
            Err(e) => Err(e),
        }
    }
}

/// The bound after the comma: absent when there is no comma.
pub open spec fn trim_end_result(t: Seq<char>) -> Result<Option<u64>, Error> {
    match find_comma(t, 0) {
        Some(q) => match numeral_result(t.skip(q + 1)) {
            Ok(v) => Ok(Some(v)),
            Err(e) => Err(e),
        },
        None => Ok(None),
    }
}

/// The trim bounds that a source reference `path#t=start,end` gives, in nanoseconds;
/// an in-point past the out-point is refused.
pub open spec fn trims_of(s: Seq<char>) -> Result<(Option<u64>, Option<u64>), Error> {
    match find_marker(s, 0) {
        None => Ok((None, None)),
        Some(p) => {
            let t = s.skip(p + 3);
            match (trim_start_result(t), trim_end_result(t)) {
                (Err(e), _) => Err(e),
                (_, Err(e)) => Err(e),
                (Ok(Some(i)), Ok(Some(o))) => if i > o {
                    Err(Error::InvalidTimestamp)
                } else {
                    Ok((Some(i), Some(o)))
                },
                (Ok(i), Ok(o)) => Ok((i, o)),
            }
        },
    }
}

/// One placed media reference.
#[derive(Debug)]
pub struct Entry {
    /// The media source, as the document names it.
    pub path: String,
    /// Where in the source the entry begins, if trimmed.
    pub in_point: Option<u64>,
    /// Where in the source the entry ends, if trimmed.
    pub out_point: Option<u64>,
    /// Length of the whole source, as discovery reports it.
    pub native_duration: u64,
    /// Where the entry starts on its feed's timeline.
    pub start: u64,
    /// The entry's effects, in document order.
    pub effects: TimedEffects,
}

impl Entry {
    pub open spec fn spec_duration(&self) -> u64 {
        entry_duration(self.in_point, self.out_point, self.native_duration)
    }

    /// An entry of `path` with the given trim bounds, no effects, and no known source length.
    pub fn new(path: &str, trim_start: Option<u64>, trim_end: Option<u64>) -> (r: Entry)
        ensures
            r.path@ == path@,
            r.in_point == trim_start,
            r.out_point == trim_end,
            r.native_duration == 0,
            r.start == 0,
            r.effects@ == Seq::<EffectView>::empty(),
    {
        Entry {
            path: String::from_str(path),
            in_point: trim_start,
            out_point: trim_end,
            native_duration: 0,
            start: 0,
            effects: TimedEffects::new(),
        }
    }

    /// Reads a source reference `path#t=start,end`; either bound may be left out.
    pub fn from_source_ref(s: &str) -> (r: Result<Entry, Error>)
        ensures
            r matches Ok(e) ==> trims_of(s@) == Ok::<(Option<u64>, Option<u64>), Error>(
                (e.in_point, e.out_point),
            ) && e.path@ == path_of(s@) && e.native_duration == 0 && e.start == 0
                && e.effects@ == Seq::<EffectView>::empty(),
            r matches Err(x) ==> trims_of(s@) == Err::<(Option<u64>, Option<u64>), Error>(x),
    {
        let chars = chars_of(s);
        let n = chars.len();
        let p = match find_marker_in(&chars) {
            Some(p) => p,
            None => {
                return Ok(Entry::new(s, None, None));
            },
        };
        let path = s.substring_char(0, p);
        let t = slice_chars(&chars, p + 3, n);
        assert(t@ =~= s@.skip(p + 3));
        let m = t.len();
        let found_comma = find_comma_in(&t);
        let comma = found_comma.is_some();
        let q = match found_comma {
            Some(q) => q,
            None => m,
        };
        let start_text = if comma {
            slice_chars(&t, 0, q)
        } else {
            slice_chars(&t, 0, m)
        };
        assert(comma ==> start_text@ =~= t@.take(q as int));
        assert(!comma ==> start_text@ =~= t@);
        let trim_start = if start_text.len() == 0 {
            None
        } else {
            match parse_numeral(&start_text) {
                Some(v) => Some(v),
                None => {
                    return Err(Error::InvalidTimestamp);
                },
            }
        };
        let trim_end = if comma {
            let end_text = slice_chars(&t, q + 1, m);
            assert(end_text@ =~= t@.skip(q + 1));
            match parse_numeral(&end_text) {
                Some(v) => Some(v),
                None => {
                    return Err(Error::InvalidTimestamp);
                },
            }
        } else {
            None
        };
        match (trim_start, trim_end) {
            (Some(i), Some(o)) => {
                if i > o {
                    return Err(Error::InvalidTimestamp);
                }
            },
            _ => {},
        }
        Ok(Entry::new(path, trim_start, trim_end))
    }

    /// Reads one `source_ref: effects` pair, where `effects` is null or a mapping of
    /// timestamp keys to effect mappings.
    pub fn from_pair(key: &Value, effects: &Value) -> (r: Result<Entry, Error>)
        ensures
            match pair_entry_result(*key, *effects) {
                Ok(t) => r matches Ok(e) && entry_matches(e, t),
                Err(x) => r == Err::<Entry, Error>(x),
            },
    {
        match key {
            Value::Text(s) => {
                let mut entry = match Entry::from_source_ref(s.as_str()) {
                    Ok(e) => e,
                    Err(x) => {
                        return Err(x);
                    },
                };
                match TimedEffects::from_doc(effects) {
                    Ok(fx) => {
                        entry.effects = fx;
                        Ok(entry)
                    },
                    Err(x) => Err(x),
                }
            },
            _ => Err(Error::MalformedShape),
        }
    }

    /// Reads an entry node: a mapping with the single pair `source_ref: effects`.
    pub fn from_doc(v: &Value) -> (r: Result<Entry, Error>)
        ensures
            match entry_doc_result(*v) {
                Ok(t) => r matches Ok(e) && entry_matches(e, t),
                Err(x) => r == Err::<Entry, Error>(x),
            },
    {
        match v {
            Value::Mapping(m) => {
                if m.len() != 1 {
                    return Err(Error::MalformedShape);
                }
                Entry::from_pair(&m[0].0, &m[0].1)
            },
            _ => Err(Error::MalformedShape),
        }
    }

    /// Where the entry starts on its feed's timeline.
    pub fn start(&self) -> (r: u64)
        ensures
            r == self.start,
    {
        self.start
    }

    pub fn set_start(&mut self, start: u64)
        ensures
            final(self).start == start,
            final(self).path == old(self).path,
            final(self).in_point == old(self).in_point,
            final(self).out_point == old(self).out_point,
            final(self).native_duration == old(self).native_duration,
            final(self).effects == old(self).effects,
    {
        self.start = start;
    }

    /// The entry's length: `out - in` where an out-point is known, else the source's length.
    pub fn duration(&self) -> (r: u64)
        ensures
            r == self.spec_duration(),
    {
        match self.out_point {
            Some(o) => {
                let i = match self.in_point {
                    Some(i) => i,
                    None => 0,
                };
                if o >= i {
                    o - i
                } else {
                    0
                }
            },
            None => self.native_duration,
        }
    }

    /// Makes the entry `duration` long from its in-point.
    pub fn set_duration(&mut self, duration: u64)
        requires
            (match old(self).in_point {
                Some(i) => i,
                None => 0,
            }) + duration <= u64::MAX,
        ensures
            final(self).spec_duration() == duration,
            final(self).in_point == old(self).in_point,
            final(self).start == old(self).start,
    {
        let i = match self.in_point {
            Some(i) => i,
            None => 0,
        };
        self.out_point = Some(i + duration);
    }

    pub fn set_inpoint(&mut self, inpoint: u64)
        ensures
            final(self).in_point == Some(inpoint),
            final(self).out_point == old(self).out_point,
            final(self).start == old(self).start,
            final(self).native_duration == old(self).native_duration,
    {
        self.in_point = Some(inpoint);
    }

    /// Records the length of the whole source, as discovery reports it.
    pub fn set_native_duration(&mut self, native: u64)
        ensures
            final(self).native_duration == native,
            final(self).in_point == old(self).in_point,
            final(self).out_point == old(self).out_point,
            final(self).start == old(self).start,
            final(self).path == old(self).path,
            final(self).effects == old(self).effects,
    {
        self.native_duration = native;
    }

    /// Applies the entry's trims in document order: a start trim sets the in-point to its
    /// anchor, an end trim sets the out-point to its anchor.
    pub fn apply_trims(&mut self)
        ensures
            (final(self).in_point, final(self).out_point) == trims_applied(
                old(self).in_point,
                old(self).out_point,
                old(self).effects@,
            ),
            final(self).native_duration == old(self).native_duration,
            final(self).start == old(self).start,
            final(self).effects == old(self).effects,
            final(self).path == old(self).path,
    {
        let (i, o) = self.effects.apply(self.in_point, self.out_point);
        self.in_point = i;
        self.out_point = o;
    }
}

/// What one `source_ref: effects` pair reads as: path, in-point, out-point and effects.
pub open spec fn pair_entry_result(key: Value, effects: Value) -> Result<
    (Seq<char>, Option<u64>, Option<u64>, Seq<EffectView>),
    Error,
> {
    match key {
        Value::Text(s) => match trims_of(s@) {
            Err(x) => Err(x),
            Ok((i, o)) => match effects_doc_result(effects) {
                Err(x) => Err(x),
                Ok(fx) => Ok((path_of(s@), i, o, fx)),
            },
        },
        _ => Err(Error::MalformedShape),
    }
}

/// What an entry node reads as.
pub open spec fn entry_doc_result(v: Value) -> Result<
    (Seq<char>, Option<u64>, Option<u64>, Seq<EffectView>),
    Error,
> {
    match v {
        Value::Mapping(m) => if m@.len() == 1 {
            pair_entry_result(m@[0].0, m@[0].1)
        } else {
            Err(Error::MalformedShape)
        },
        _ => Err(Error::MalformedShape),
    }
}

/// A freshly read entry with the given path, trim bounds and effects.
pub open spec fn entry_matches(
    e: Entry,
    t: (Seq<char>, Option<u64>, Option<u64>, Seq<EffectView>),
) -> bool {
    &&& e.path@ == t.0
    &&& e.in_point == t.1
    &&& e.out_point == t.2
    &&& e.effects@ == t.3
    &&& e.native_duration == 0
    &&& e.start == 0
}

/// Position of the first `#t=` in `s`.
pub fn find_marker_in(s: &Vec<char>) -> (r: Option<usize>)
    ensures
        r matches Some(p) ==> find_marker(s@, 0) == Some(p as int) && p + 3 <= s@.len(),
        r is None ==> find_marker(s@, 0) is None,
{
    let n = s.len();
    let mut p: usize = 0;
    while p < n && n - p >= 3
        invariant
            n == s@.len(),
            p <= n,
            find_marker(s@, 0) == find_marker(s@, p as int),
        decreases n - p,
    {
        if s[p] == '#' && s[p + 1] == 't' && s[p + 2] == '=' {
            return Some(p);
        }
        p = p + 1;
    }
    None
}

/// Position of the first `,` in `s`.
pub fn find_comma_in(s: &Vec<char>) -> (r: Option<usize>)
    ensures
        r matches Some(q) ==> find_comma(s@, 0) == Some(q as int) && q < s@.len(),
        r is None ==> find_comma(s@, 0) is None,
{
    let n = s.len();
    let mut q: usize = 0;
    while q < n
        invariant
            n == s@.len(),
            q <= n,
            find_comma(s@, 0) == find_comma(s@, q as int),
        decreases n - q,
    {
        if s[q] == ',' {
            return Some(q);
        }
        q = q + 1;
    }
    None
}

/// The characters of `v` from `from` up to `to`.
pub fn slice_chars(v: &Vec<char>, from: usize, to: usize) -> (r: Vec<char>)
    requires
        from <= to <= v@.len(),
    ensures
        r@ == v@.subrange(from as int, to as int),
{
    let mut r: Vec<char> = Vec::new();
    let mut i: usize = from;
    while i < to
        invariant
            from <= i <= to <= v@.len(),
            r@ == v@.subrange(from as int, i as int),
        decreases to - i,
    {
        r.push(v[i]);
        i = i + 1;
        assert(r@ =~= v@.subrange(from as int, i as int));
    }
    r
}

} // verus!
