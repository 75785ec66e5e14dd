//! The document tree a timeline is read from, and the readers of its leaves:
//! timestamp keys and single effects.
use vstd::prelude::*;

use crate::effects::{
    ended_by, Effect, EffectKind, EffectView, KindView, TimeCompressionEffect, TimedEffects, TrimEffect,
    VolumeEffect,
};
use crate::error::Error;
use crate::timestamp::{chars_of, numeral_result, parse_numeral, parse_timecode, timecode_result};

verus! {

/// A node of a timeline document: scalars, sequences and ordered mappings.
/// A number keeps the text it was written with.
#[derive(Debug)]
pub enum Value {
    Null,
    Bool(bool),
    Number(String),
    Text(String),
    List(Vec<Value>),
    Mapping(Vec<(Value, Value)>),
}

/// Whether `s` holds a match of the timecode pattern `(\d\d:)?(\d\d:)?\d\d(\.\d+)?`
/// anywhere in it.
pub uninterp spec fn timecode_pattern_found(s: Seq<char>) -> bool;

/// Relies on `regex::Regex::new` to compile the timecode pattern and on
/// `regex::Regex::is_match` to say whether a match of it occurs anywhere in `s`.
#[verifier::external_body]
fn find_timecode_pattern(s: &str) -> (r: bool)
    ensures
        r == timecode_pattern_found(s@),
{
    match regex::Regex::new(r"(\d\d:)?(\d\d:)?\d\d(\.\d+)?") {
        Ok(re) => re.is_match(s),
        Err(_) => false,
    }
}

/// Whether two strings hold the same characters.
pub fn text_eq(a: &str, b: &str) -> (r: bool)
    ensures
        r == (a@ == b@),
{
    let n = a.unicode_len();
    if n != b.unicode_len() {
        return false;
    }
    let mut i: usize = 0;
    while i < n
        invariant
            n == a@.len(),
            n == b@.len(),
            i <= n,
            a@.take(i as int) == b@.take(i as int),
        decreases n - i,
    {
        if a.get_char(i) != b.get_char(i) {
            return false;
        }
        assert(a@.take(i + 1) =~= a@.take(i as int).push(a@[i as int]));
        assert(b@.take(i + 1) =~= b@.take(i as int).push(b@[i as int]));
        i = i + 1;
    }
    assert(a@.take(n as int) =~= a@);
    assert(b@.take(n as int) =~= b@);
    true
}

/// Whether `v` is a text node that reads `lit`.
pub open spec fn is_text(v: Value, lit: Seq<char>) -> bool {
    match v {
        Value::Text(s) => s@ == lit,
        _ => false,
    }
}

pub fn value_is_text(v: &Value, lit: &str) -> (r: bool)
    ensures
        r == is_text(*v, lit@),
{
    match v {
        Value::Text(s) => text_eq(s.as_str(), lit),
        _ => false,
    }
}

/// A key that may name a point in time: a number, or a text holding a timecode pattern.
pub open spec fn timestamp_key(v: Value) -> bool {
    match v {
        Value::Text(s) => timecode_pattern_found(s@),
        Value::Number(_) => true,
        _ => false,
    }
}

/// The instant, in nanoseconds, that a timestamp key denotes. A text is a timecode;
/// a number counts nanoseconds.
pub open spec fn timestamp_result(v: Value) -> Result<u64, Error> {
    match v {
        Value::Text(s) => timecode_result(s@),
        Value::Number(n) => numeral_result(n@),
        _ => Err(Error::InvalidTimestamp),
    }
}

/// The effect that one `name: value` pair declares at `anchor`, tried in order:
/// trim, volume, time compression.
pub open spec fn effect_for(key: Value, value: Value, anchor: u64) -> Option<EffectView> {
    if is_text(key, "trim"@) && is_text(value, "start"@) {
        Some(EffectView { kind: KindView::Trim(TrimEffect::Start), anchor, duration: None })
    } else if is_text(key, "trim"@) && is_text(value, "end"@) {
        Some(EffectView { kind: KindView::Trim(TrimEffect::End), anchor, duration: None })
    } else if is_text(key, "vol"@) && value is Number {
        Some(EffectView { kind: KindView::Volume(value->Number_0@), anchor, duration: None })
    } else if is_text(key, "tc"@) && value is Number {
        Some(
            EffectView { kind: KindView::TimeCompression(value->Number_0@), anchor, duration: None },
        )
    } else {
        None
    }
}

impl TimedEffects {
    /// Whether a document key reads as a timestamp.
    pub fn is_timestamp(yaml: &Value) -> (r: bool)
        ensures
            r == timestamp_key(*yaml),
    {
        match yaml {
            Value::Text(s) => find_timecode_pattern(s.as_str()),
            Value::Number(_) => true,
            _ => false,
        }
    }

    /// The instant a timestamp key denotes, in nanoseconds.
    pub fn parse_timestamp(yaml: &Value) -> (r: Result<u64, Error>)
        ensures
            r == timestamp_result(*yaml),
    {
        match yaml {
            Value::Text(s) => parse_timecode(s.as_str()),
            Value::Number(n) => {
                let digits = chars_of(n.as_str());
                match parse_numeral(&digits) {
                    Some(v) => Ok(v),
                    None => Err(Error::InvalidTimestamp),
                }
            },
            _ => Err(Error::InvalidTimestamp),
        }
    }
}

impl TrimEffect {
    /// Whether the pair declares a trim: `trim: start` or `trim: end`.
    pub fn can_parse(key: &Value, value: &Value) -> (r: bool)
        ensures
            r == (is_text(*key, "trim"@) && (is_text(*value, "start"@) || is_text(*value, "end"@))),
    {
        value_is_text(key, "trim") && (value_is_text(value, "start") || value_is_text(value, "end"))
    }

    pub fn parse(key: &Value, value: &Value, timestamp: u64) -> (r: Effect)
        requires
            is_text(*key, "trim"@) && (is_text(*value, "start"@) || is_text(*value, "end"@)),
        ensures
            Some(r@) == effect_for(*key, *value, timestamp),
    {
        if value_is_text(value, "start") {
            Effect::new(EffectKind::Trim(TrimEffect::Start), timestamp)
        } else {
            Effect::new(EffectKind::Trim(TrimEffect::End), timestamp)
        }
    }
}

impl VolumeEffect {
    /// Whether the pair declares a volume change: `vol: <number>`.
    pub fn can_parse(key: &Value, value: &Value) -> (r: bool)
        ensures
            r == (is_text(*key, "vol"@) && *value is Number),
    {
        value_is_text(key, "vol") && match value {
            Value::Number(_) => true,
            _ => false,
        }
    }

    pub fn parse(value: &Value, timestamp: u64) -> (r: Effect)
        requires
            *value is Number,
        ensures
            r@ == (EffectView {
                kind: KindView::Volume(value->Number_0@),
                anchor: timestamp,
                duration: None,
            }),
    {
        match value {
            Value::Number(n) => Effect::new(
                EffectKind::Volume(VolumeEffect { level: n.clone() }),
                timestamp,
            ),
            _ => Effect::new(EffectKind::Volume(VolumeEffect { level: String::new() }), timestamp),
        }
    }
}

impl TimeCompressionEffect {
    /// Whether the pair declares a speed change: `tc: <number>`.
    pub fn can_parse(key: &Value, value: &Value) -> (r: bool)
        ensures
            r == (is_text(*key, "tc"@) && *value is Number),
    {
        value_is_text(key, "tc") && match value {
            Value::Number(_) => true,
            _ => false,
        }
    }

    pub fn parse(value: &Value, timestamp: u64) -> (r: Effect)
        requires
            *value is Number,
        ensures
            r@ == (EffectView {
                kind: KindView::TimeCompression(value->Number_0@),
                anchor: timestamp,
                duration: None,
            }),
    {
        match value {
            Value::Number(n) => Effect::new(
                EffectKind::TimeCompression(TimeCompressionEffect { factor: n.clone() }),
                timestamp,
            ),
            _ => Effect::new(
                EffectKind::TimeCompression(TimeCompressionEffect { factor: String::new() }),
                timestamp,
            ),
        }
    }
}

/// Reads one `name: value` pair as an effect at `anchor`; the first parser that accepts
/// the pair reads it.
pub fn parse_effect(key: &Value, value: &Value, anchor: u64) -> (r: Result<Effect, Error>)
    ensures
        r matches Ok(e) ==> effect_for(*key, *value, anchor) == Some(e@),
        r is Err ==> effect_for(*key, *value, anchor) is None && r == Err::<Effect, Error>(
            Error::UnknownEffectKey,
        ),
{
    if TrimEffect::can_parse(key, value) {
        Ok(TrimEffect::parse(key, value, anchor))
    } else if VolumeEffect::can_parse(key, value) {
        Ok(VolumeEffect::parse(value, anchor))
    } else if TimeCompressionEffect::can_parse(key, value) {
        Ok(TimeCompressionEffect::parse(value, anchor))
    } else {
        Err(Error::UnknownEffectKey)
    }
}

/// `acc` with `e` added after it, ending the open effects of its kind.
pub open spec fn closing_push(acc: Seq<EffectView>, e: EffectView) -> Seq<EffectView> {
    Seq::new(acc.len(), |i: int| ended_by(acc[i], e)).push(e)
}

/// `acc` with each effect of `es` added in turn, as `closing_push` adds one.
pub open spec fn close_onto(acc: Seq<EffectView>, es: Seq<EffectView>) -> Seq<EffectView>
    decreases es.len(),
{
    if es.len() == 0 {
        acc
    } else {
        closing_push(close_onto(acc, es.drop_last()), es.last())
    }
}

/// Whether every pair of an effect mapping declares an effect that a parser reads.
pub open spec fn all_effects_known(m: Seq<(Value, Value)>, anchor: u64) -> bool {
    forall|i: int| 0 <= i < m.len() ==> (#[trigger] effect_for(m[i].0, m[i].1, anchor)) is Some
}

/// The effects that one `timestamp: {name: value, ...}` pair declares, in order.
pub open spec fn block_result(key: Value, value: Value) -> Result<Seq<EffectView>, Error> {
    if !timestamp_key(key) {
        Err(Error::InvalidTimestamp)
    } else {
        match timestamp_result(key) {
            Err(e) => Err(e),
            Ok(t) => match value {
                Value::Mapping(m) => if all_effects_known(m@, t) {
                    Ok(Seq::new(m@.len(), |i: int| effect_for(m@[i].0, m@[i].1, t)->Some_0))
                } else {
                    Err(Error::UnknownEffectKey)
                },
                _ => Err(Error::MalformedShape),
            },
        }
    }
}

/// The effects of a mapping of timestamp keys read in order onto `acc`; the first
/// failing pair decides the error.
pub open spec fn blocks_onto(acc: Seq<EffectView>, pairs: Seq<(Value, Value)>) -> Result<
    Seq<EffectView>,
    Error,
>
    decreases pairs.len(),
{
    if pairs.len() == 0 {
        Ok(acc)
    } else {
        match blocks_onto(acc, pairs.drop_last()) {
            Err(e) => Err(e),
            Ok(a) => match block_result(pairs.last().0, pairs.last().1) {
                Err(e) => Err(e),
                Ok(es) => Ok(close_onto(a, es)),
            },
        }
    }
}

/// The effects of an entry node's value: null for none, or a mapping of timestamp keys.
pub open spec fn effects_doc_result(v: Value) -> Result<Seq<EffectView>, Error> {
    match v {
        Value::Null => Ok(Seq::empty()),
        Value::Mapping(m) => blocks_onto(Seq::empty(), m@),
        _ => Err(Error::MalformedShape),
    }
}

impl TimedEffects {
    /// Reads one `timestamp: {name: value, ...}` pair and adds its effects in order, each
    /// ending the open effect of its kind before it. Nothing is added on failure.
    pub fn add_block(&mut self, key: &Value, value: &Value) -> (r: Result<(), Error>)
        ensures
            match block_result(*key, *value) {
                Ok(es) => r is Ok && final(self)@ == close_onto(old(self)@, es),
                Err(e) => r == Err::<(), Error>(e) && final(self)@ == old(self)@,
            },
    {
        if !TimedEffects::is_timestamp(key) {
            return Err(Error::InvalidTimestamp);
        }
        let t = match TimedEffects::parse_timestamp(key) {
            Ok(t) => t,
            Err(e) => {
                return Err(e);
            },
        };
        let m = match value {
            Value::Mapping(m) => m,
            _ => {
                return Err(Error::MalformedShape);
            },
        };
        let mut parsed: Vec<Effect> = Vec::new();
        let mut i: usize = 0;
        while i < m.len()
            invariant
                *value == Value::Mapping(*m),
                timestamp_key(*key),
                timestamp_result(*key) == Ok::<u64, Error>(t),
                i <= m@.len(),
                parsed@.len() == i,
                forall|k: int|
                    0 <= k < i ==> Some((#[trigger] parsed@[k])@) == effect_for(m@[k].0, m@[k].1, t),
            decreases m@.len() - i,
        {
            match parse_effect(&m[i].0, &m[i].1, t) {
                Ok(e) => parsed.push(e),
                Err(e) => {
                    assert(effect_for(m@[i as int].0, m@[i as int].1, t) is None);
                    assert(!all_effects_known(m@, t));
                    assert(timestamp_result(*key) == Ok::<u64, Error>(t));
                    assert(block_result(*key, *value) == Err::<Seq<EffectView>, Error>(
                        Error::UnknownEffectKey,
                    ));
                    return Err(e);
                },
            }
            i = i + 1;
        }
        let ghost es = Seq::new(m@.len(), |k: int| effect_for(m@[k].0, m@[k].1, t)->Some_0);
        assert forall|k: int| 0 <= k < m@.len() implies (#[trigger] effect_for(
            m@[k].0,
            m@[k].1,
            t,
        )) is Some by {
            assert(Some(parsed@[k]@) == effect_for(m@[k].0, m@[k].1, t));
        }
        assert(all_effects_known(m@, t));
        let mut j: usize = 0;
        while j < parsed.len()
            invariant
                parsed@.len() == es.len(),
                j <= es.len(),
                forall|k: int| 0 <= k < es.len() ==> (#[trigger] parsed@[k])@ == es[k],
                self@ == close_onto(old(self)@, es.take(j as int)),
            decreases es.len() - j,
        {
            assert(es.take(j + 1).drop_last() =~= es.take(j as int));
            self.add_closing(parsed[j].duplicate());
            j = j + 1;
        }
        assert(es.take(es.len() as int) =~= es);
        Ok(())
    }

    /// Reads the effects of an entry node: null for none, or a mapping of timestamp keys to
    /// effect mappings, read in document order.
    pub fn from_doc(v: &Value) -> (r: Result<TimedEffects, Error>)
        ensures
            r matches Ok(t) ==> effects_doc_result(*v) == Ok::<Seq<EffectView>, Error>(t@),
            r matches Err(e) ==> effects_doc_result(*v) == Err::<Seq<EffectView>, Error>(e),
    {
        match v {
            Value::Null => Ok(TimedEffects::new()),
            Value::Mapping(m) => {
                let mut set = TimedEffects::new();
                let mut i: usize = 0;
                while i < m.len()
                    invariant
                        *v == Value::Mapping(*m),
                        i <= m@.len(),
                        blocks_onto(Seq::empty(), m@.take(i as int)) == Ok::<
                            Seq<EffectView>,
                            Error,
                        >(set@),
                    decreases m@.len() - i,
                {
                    assert(m@.take(i + 1).drop_last() =~= m@.take(i as int));
                    assert(m@.take(i + 1).last() == m@[i as int]);
                    match set.add_block(&m[i].0, &m[i].1) {
                        Ok(()) => {},
                        Err(e) => {
                            proof {
                                assert(blocks_onto(Seq::empty(), m@.take(i + 1)) == Err::<
                                    Seq<EffectView>,
                                    Error,
                                >(e));
                                lemma_blocks_onto_err(Seq::empty(), m@, i + 1, e);
                            }
                            return Err(e);
                        },
                    }
                    i = i + 1;
                }
                assert(m@.take(m@.len() as int) =~= m@);
                Ok(set)
            },
            _ => Err(Error::MalformedShape),
        }
    }
}

/// Once a prefix of the pairs fails, the whole mapping fails with the same error.
pub proof fn lemma_blocks_onto_err(
    acc: Seq<EffectView>,
    pairs: Seq<(Value, Value)>,
    i: int,
    e: Error,
)
    requires
        0 <= i <= pairs.len(),
        blocks_onto(acc, pairs.take(i)) == Err::<Seq<EffectView>, Error>(e),
    ensures
        blocks_onto(acc, pairs) == Err::<Seq<EffectView>, Error>(e),
    decreases pairs.len() - i,
{
    if i < pairs.len() {
        assert(pairs.take(i + 1).drop_last() =~= pairs.take(i));
        lemma_blocks_onto_err(acc, pairs, i + 1, e);
    } else {
        assert(pairs.take(i) =~= pairs);
    }
}

} // verus!
