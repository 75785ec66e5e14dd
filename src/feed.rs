//! An ordered, contiguous run of entries, and the carrying of open effects between them.
use vstd::prelude::*;

use crate::doc::{is_text, value_is_text, Value};
use crate::effects::{gap, merged, spill_over, spills_over, EffectView, TimedEffects};
use crate::entry::{entry_matches, pair_entry_result, path_of, trims_of, Entry};
use crate::error::Error;

verus! {

/// Total length of the first `n` entries.
pub open spec fn prefix_duration(entries: Seq<Entry>, n: int) -> nat
    decreases n,
{
    if n <= 0 {
        0
    } else {
        (prefix_duration(entries, n - 1) + entries[n - 1].spec_duration()) as nat
    }
}

/// Total length of all entries.
pub open spec fn total_duration(entries: Seq<Entry>) -> nat {
    prefix_duration(entries, entries.len() as int)
}

/// Entries placed back to back from `start`, in order.
pub open spec fn laid_out(entries: Seq<Entry>, start: u64) -> bool {
    forall|i: int|
        0 <= i < entries.len() ==> (#[trigger] entries[i]).start == start + prefix_duration(
            entries,
            i,
        )
}

/// The effect sets of the entries, in order.
pub open spec fn effect_sets(entries: Seq<Entry>) -> Seq<Seq<EffectView>> {
    Seq::new(entries.len(), |i: int| entries[i].effects@)
}

/// What the first `i` entries carry into entry `i`, each set merged with what it received.
pub open spec fn carry_in(sets: Seq<Seq<EffectView>>, i: int) -> Seq<EffectView>
    decreases i,
{
    if i <= 0 {
        Seq::empty()
    } else {
        spill_over(merged(sets[i - 1], carry_in(sets, i - 1)))
    }
}

/// `e` and `f` differ at most in their effects and their start.
pub open spec fn same_source(e: Entry, f: Entry) -> bool {
    &&& e.path == f.path
    &&& e.in_point == f.in_point
    &&& e.out_point == f.out_point
    &&& e.native_duration == f.native_duration
}

pub proof fn lemma_prefix_duration_monotone(entries: Seq<Entry>, i: int, j: int)
    requires
        0 <= i <= j <= entries.len(),
    ensures
        prefix_duration(entries, i) <= prefix_duration(entries, j),
    decreases j - i,
{
    if i < j {
        lemma_prefix_duration_monotone(entries, i, j - 1);
    }
}

pub proof fn lemma_prefix_duration_same(a: Seq<Entry>, b: Seq<Entry>, n: int)
    requires
        0 <= n <= a.len(),
        a.len() == b.len(),
        forall|k: int| 0 <= k < a.len() ==> (#[trigger] a[k]).spec_duration() == b[k].spec_duration(),
    ensures
        prefix_duration(a, n) == prefix_duration(b, n),
    decreases n,
{
    if n > 0 {
        lemma_prefix_duration_same(a, b, n - 1);
    }
}

/// An ordered run of entries placed back to back from `start`.
#[derive(Debug)]
pub struct Feed {
    pub entries: Vec<Entry>,
    pub start: u64,
}

impl Feed {
    /// A feed of the given source references, in order, starting at zero.
    pub fn new(paths: Vec<&str>) -> (r: Result<Feed, Error>)
        ensures
            r matches Ok(f) ==> f.start == 0 && f.entries@.len() == paths@.len() && forall|j: int|
                0 <= j < paths@.len() ==> {
                    let e = #[trigger] f.entries@[j];
                    &&& trims_of(paths@[j]@) == Ok::<(Option<u64>, Option<u64>), Error>(
                        (e.in_point, e.out_point),
                    )
                    &&& e.path@ == path_of(paths@[j]@)
                    &&& e.native_duration == 0
                    &&& e.start == 0
                    &&& e.effects@ == Seq::<EffectView>::empty()
                },
            r matches Err(x) ==> exists|j: int|
                0 <= j < paths@.len() && (#[trigger] trims_of(paths@[j]@)) == Err::<
                    (Option<u64>, Option<u64>),
                    Error,
                >(x) && forall|k: int| 0 <= k < j ==> (#[trigger] trims_of(paths@[k]@)) is Ok,
    {
        let mut entries: Vec<Entry> = Vec::new();
        let mut i: usize = 0;
        while i < paths.len()
            invariant
                i <= paths@.len(),
                entries@.len() == i,
                forall|j: int|
                    0 <= j < i ==> {
                        let e = #[trigger] entries@[j];
                        &&& trims_of(paths@[j]@) == Ok::<(Option<u64>, Option<u64>), Error>(
                            (e.in_point, e.out_point),
                        )
                        &&& e.path@ == path_of(paths@[j]@)
                        &&& e.native_duration == 0
                        &&& e.start == 0
                        &&& e.effects@ == Seq::<EffectView>::empty()
                    },
            decreases paths@.len() - i,
        {
            match Entry::from_source_ref(paths[i]) {
                Ok(e) => entries.push(e),
                Err(x) => {
                    assert forall|k: int| 0 <= k < i implies (#[trigger] trims_of(
                        paths@[k]@,
                    )) is Ok by {
                        assert(trims_of(paths@[k]@) == Ok::<(Option<u64>, Option<u64>), Error>(
                            (entries@[k].in_point, entries@[k].out_point),
                        ));
                    }
                    return Err(x);
                },
            }
            i = i + 1;
        }
        Ok(Feed { entries, start: 0 })
    }

    /// Where the feed starts on its container's timeline.
    pub fn start(&self) -> (r: u64)
        ensures
            r == self.start,
    {
        self.start
    }

    pub fn set_start(&mut self, start: u64)
        ensures
            final(self).start == start,
            final(self).entries == old(self).entries,
    {
        self.start = start;
    }

    /// The sum of the entries' lengths, or `None` where it does not fit in a `u64`.
    pub fn duration(&self) -> (r: Option<u64>)
        ensures
            r matches Some(d) ==> d == total_duration(self.entries@),
            r is None ==> total_duration(self.entries@) > u64::MAX,
    {
        let mut total: u64 = 0;
        let mut i: usize = 0;
        while i < self.entries.len()
            invariant
                i <= self.entries@.len(),
                total == prefix_duration(self.entries@, i as int),
            decreases self.entries@.len() - i,
        {
            let d = self.entries[i].duration();
            if total > u64::MAX - d {
                proof {
                    lemma_prefix_duration_monotone(
                        self.entries@,
                        i + 1,
                        self.entries@.len() as int,
                    );
                }
                return None;
            }
            total = total + d;
            i = i + 1;
        }
        Some(total)
    }

    /// Places the entries back to back from the feed's start:
    /// `start(entry[0]) = start(feed)` and `start(entry[i+1]) = start(entry[i]) + duration(entry[i])`.
    pub fn layout(&mut self)
        requires
            old(self).start + total_duration(old(self).entries@) <= u64::MAX,
        ensures
            laid_out(final(self).entries@, final(self).start),
            final(self).start == old(self).start,
            final(self).entries@.len() == old(self).entries@.len(),
            forall|i: int|
                0 <= i < final(self).entries@.len() ==> same_source(
                    #[trigger] final(self).entries@[i],
                    old(self).entries@[i],
                ) && final(self).entries@[i].effects == old(self).entries@[i].effects,
    {
        let n = self.entries.len();
        let mut at: u64 = self.start;
        let mut i: usize = 0;
        while i < n
            invariant
                n == self.entries@.len(),
                n == old(self).entries@.len(),
                i <= n,
                self.start == old(self).start,
                self.start + total_duration(old(self).entries@) <= u64::MAX,
                forall|k: int|
                    0 <= k < n ==> same_source(#[trigger] self.entries@[k], old(self).entries@[k])
                        && self.entries@[k].effects == old(self).entries@[k].effects,
                forall|k: int| i <= k < n ==> (#[trigger] self.entries@[k]) == old(self).entries@[k],
                forall|k: int|
                    0 <= k < i ==> (#[trigger] self.entries@[k]).start == self.start
                        + prefix_duration(old(self).entries@, k),
                at == self.start + prefix_duration(old(self).entries@, i as int),
            decreases n - i,
        {
            proof {
                lemma_prefix_duration_monotone(old(self).entries@, i + 1, n as int);
            }
            let d = self.entries[i].duration();
            self.entries[i].set_start(at);
            at = at + d;
            i = i + 1;
        }
        proof {
            lemma_prefix_duration_same(self.entries@, old(self).entries@, n as int);
            assert forall|i: int| 0 <= i < n implies (#[trigger] self.entries@[i]).start
                == self.start + prefix_duration(self.entries@, i) by {
                lemma_prefix_duration_same(self.entries@, old(self).entries@, i);
            }
        }
    }

    /// Carries open effects from entry to entry: each entry's set receives what the entries
    /// before it left open (see `TimedEffects::prepend`). Returns what is still open at the
    /// end of the feed.
    pub fn resolve_spillover(&mut self) -> (r: TimedEffects)
        ensures
            final(self).start == old(self).start,
            final(self).entries@.len() == old(self).entries@.len(),
            forall|i: int|
                0 <= i < final(self).entries@.len() ==> same_source(
                    #[trigger] final(self).entries@[i],
                    old(self).entries@[i],
                ) && final(self).entries@[i].start == old(self).entries@[i].start
                    && final(self).entries@[i].effects@ == merged(
                    effect_sets(old(self).entries@)[i],
                    carry_in(effect_sets(old(self).entries@), i),
                ),
            r@ == carry_in(effect_sets(old(self).entries@), old(self).entries@.len() as int),
    {
        let ghost sets = effect_sets(self.entries@);
        let n = self.entries.len();
        let mut carry = TimedEffects::new();
        let mut i: usize = 0;
        while i < n
            invariant
                n == self.entries@.len(),
                n == old(self).entries@.len(),
                sets == effect_sets(old(self).entries@),
                i <= n,
                self.start == old(self).start,
                carry@ == carry_in(sets, i as int),
                forall|k: int|
                    0 <= k < n ==> same_source(#[trigger] self.entries@[k], old(self).entries@[k])
                        && self.entries@[k].start == old(self).entries@[k].start,
                forall|k: int| i <= k < n ==> (#[trigger] self.entries@[k]) == old(self).entries@[k],
                forall|k: int|
                    0 <= k < i ==> (#[trigger] self.entries@[k]).effects@ == merged(
                        sets[k],
                        carry_in(sets, k),
                    ),
            decreases n - i,
        {
            carry = self.entries[i].effects.prepend(carry);
            i = i + 1;
        }
        carry
    }

    /// Applies each entry's trims (see `Entry::apply_trims`).
    pub fn apply_trims(&mut self)
        ensures
            final(self).start == old(self).start,
            final(self).entries@.len() == old(self).entries@.len(),
            forall|i: int|
                0 <= i < final(self).entries@.len() ==> {
                    let e = #[trigger] final(self).entries@[i];
                    let o = old(self).entries@[i];
                    &&& (e.in_point, e.out_point) == crate::effects::trims_applied(
                        o.in_point,
                        o.out_point,
                        o.effects@,
                    )
                    &&& e.native_duration == o.native_duration
                    &&& e.start == o.start
                    &&& e.effects == o.effects
                    &&& e.path == o.path
                },
    {
        let n = self.entries.len();
        let mut i: usize = 0;
        while i < n
            invariant
                n == self.entries@.len(),
                n == old(self).entries@.len(),
                i <= n,
                self.start == old(self).start,
                forall|k: int| i <= k < n ==> (#[trigger] self.entries@[k]) == old(self).entries@[k],
                forall|k: int|
                    0 <= k < i ==> {
                        let e = #[trigger] self.entries@[k];
                        let o = old(self).entries@[k];
                        &&& (e.in_point, e.out_point) == crate::effects::trims_applied(
                            o.in_point,
                            o.out_point,
                            o.effects@,
                        )
                        &&& e.native_duration == o.native_duration
                        &&& e.start == o.start
                        &&& e.effects == o.effects
                        &&& e.path == o.path
                    },
            decreases n - i,
        {
            self.entries[i].apply_trims();
            i = i + 1;
        }
    }
}

/// The `source_ref: effects` pairs of a feed node `{feed: {...}}`, if it has that shape.
pub open spec fn feed_pairs(v: Value) -> Option<Seq<(Value, Value)>> {
    match v {
        Value::Mapping(m) => if m@.len() == 1 && is_text(m@[0].0, "feed"@) {
            match m@[0].1 {
                Value::Mapping(pairs) => Some(pairs@),
                _ => None,
            }
        } else {
            None
        },
        _ => None,
    }
}

/// The effect sets that the pairs read as, before anything is carried between them.
pub open spec fn parsed_sets(pairs: Seq<(Value, Value)>) -> Seq<Seq<EffectView>> {
    Seq::new(pairs.len(), |j: int| pair_entry_result(pairs[j].0, pairs[j].1)->Ok_0.3)
}

/// A feed node whose every entry reads.
pub open spec fn feed_doc_valid(v: Value) -> bool {
    match feed_pairs(v) {
        Some(pairs) => forall|j: int|
            0 <= j < pairs.len() ==> (#[trigger] pair_entry_result(pairs[j].0, pairs[j].1)) is Ok,
        None => false,
    }
}

/// `f` is what the feed node `v` reads as: its entries in order, starting at zero, each
/// holding the effects it declares with those carried over from the entries before it.
pub open spec fn feed_doc_ok(v: Value, f: Feed) -> bool {
    &&& feed_doc_valid(v)
    &&& f.start == 0
    &&& f.entries@.len() == feed_pairs(v)->Some_0.len()
    &&& forall|j: int|
        0 <= j < f.entries@.len() ==> {
            let pairs = feed_pairs(v)->Some_0;
            let t = pair_entry_result(pairs[j].0, pairs[j].1)->Ok_0;
            let e = #[trigger] f.entries@[j];
            &&& e.path@ == t.0
            &&& e.in_point == t.1
            &&& e.out_point == t.2
            &&& e.native_duration == 0
            &&& e.start == 0
            &&& e.effects@ == merged(parsed_sets(pairs)[j], carry_in(parsed_sets(pairs), j))
        }
}

/// Reading the feed node `v` fails with `x`: its shape is wrong, or `x` is the error of its
/// first entry that does not read.
pub open spec fn feed_doc_err(v: Value, x: Error) -> bool {
    match feed_pairs(v) {
        None => x == Error::MalformedShape,
        Some(pairs) => exists|j: int|
            0 <= j < pairs.len() && (#[trigger] pair_entry_result(pairs[j].0, pairs[j].1))
                == Err::<(Seq<char>, Option<u64>, Option<u64>, Seq<EffectView>), Error>(x)
                && forall|k: int|
                0 <= k < j ==> (#[trigger] pair_entry_result(pairs[k].0, pairs[k].1)) is Ok,
    }
}

impl Feed {
    /// Reads a feed node `{feed: {source_ref: effects, ...}}` and carries open effects from
    /// each entry into the next.
    pub fn from_doc(v: &Value) -> (r: Result<Feed, Error>)
        ensures
            r matches Ok(f) ==> feed_doc_ok(*v, f),
            r matches Err(x) ==> feed_doc_err(*v, x),
    {
        let pairs = match v {
            Value::Mapping(m) => {
                if m.len() != 1 || !value_is_text(&m[0].0, "feed") {
                    return Err(Error::MalformedShape);
                }
                match &m[0].1 {
                    Value::Mapping(pairs) => pairs,
                    _ => {
                        return Err(Error::MalformedShape);
                    },
                }
            },
            _ => {
                return Err(Error::MalformedShape);
            },
        };
        let ghost ps = pairs@;
        assert(feed_pairs(*v) == Some(ps));
        let mut entries: Vec<Entry> = Vec::new();
        let mut i: usize = 0;
        while i < pairs.len()
            invariant
                feed_pairs(*v) == Some(ps),
                ps == pairs@,
                i <= ps.len(),
                entries@.len() == i,
                forall|k: int|
                    0 <= k < i ==> (#[trigger] pair_entry_result(ps[k].0, ps[k].1)) is Ok
                        && entry_matches(entries@[k], pair_entry_result(ps[k].0, ps[k].1)->Ok_0),
            decreases ps.len() - i,
        {
            match Entry::from_pair(&pairs[i].0, &pairs[i].1) {
                Ok(e) => entries.push(e),
                Err(x) => {
                    assert(pair_entry_result(ps[i as int].0, ps[i as int].1) is Err);
                    assert(feed_doc_err(*v, x));
                    return Err(x);
                },
            }
            i = i + 1;
        }
        let mut feed = Feed { entries, start: 0 };
        let ghost before = feed.entries@;
        assert(effect_sets(before) =~= parsed_sets(ps));
        // Whatever is still open at the feed's end stays open in the entries that hold it.
        let _open_at_end = feed.resolve_spillover();
        assert(feed_doc_ok(*v, feed));
        Ok(feed)
    }
}

/// Position, in the set carried out of `s`, of the copy of `s[k]`.
pub open spec fn spill_index(s: Seq<EffectView>, k: int) -> int {
    spill_over(s.take(k)).len() as int
}

/// How long the `k`-th effect of entry `i` lasts, counted from its anchor: its own duration
/// if it has one; for an open effect that carries over, the rest of its entry plus however
/// long its copy in the next entry lasts; `None` while it stays open through the feed's end.
pub open spec fn span_from(entries: Seq<Entry>, i: int, k: int) -> Option<nat>
    decreases entries.len() - i,
{
    if i < 0 || i >= entries.len() || k < 0 || k >= entries[i].effects@.len() {
        None
    } else {
        let x = entries[i].effects@[k];
        match x.duration {
            Some(d) => Some(d as nat),
            None => if !spills_over(x.kind) || i + 1 >= entries.len() {
                None
            } else {
                match span_from(entries, i + 1, spill_index(entries[i].effects@, k)) {
                    Some(r) => Some((gap(entries[i].spec_duration(), x.anchor) + r) as nat),
                    None => None,
                }
            },
        }
    }
}

impl Feed {
    /// How long the `k`-th effect of entry `i` lasts from its anchor, following an open
    /// effect through the copies carried into later entries until one of them is closed.
    /// `None` where it stays open through the feed's end, or the length does not fit in a
    /// `u64`.
    pub fn effect_span(&self, i: usize, k: usize) -> (r: Option<u64>)
        ensures
            r matches Some(v) ==> span_from(self.entries@, i as int, k as int) == Some(v as nat),
            r is None ==> match span_from(self.entries@, i as int, k as int) {
                Some(v) => v > u64::MAX,
                None => true,
            },
    {
        let n = self.entries.len();
        let mut ci: usize = i;
        let mut ck: usize = k;
        let mut acc: u64 = 0;
        loop
            invariant
                n == self.entries@.len(),
                match span_from(self.entries@, ci as int, ck as int) {
                    Some(r) => span_from(self.entries@, i as int, k as int) == Some(
                        (acc + r) as nat,
                    ),
                    None => span_from(self.entries@, i as int, k as int) is None,
                },
            decreases n - ci,
        {
            if ci >= n || ck >= self.entries[ci].effects.effects.len() {
                return None;
            }
            let x = &self.entries[ci].effects.effects[ck];
            match x.duration {
                Some(d) => {
                    if acc > u64::MAX - d {
                        return None;
                    }
                    return Some(acc + d);
                },
                None => {},
            }
            match x.kind {
                crate::effects::EffectKind::Trim(_) => {
                    return None;
                },
                _ => {},
            }
            if ci + 1 >= n {
                return None;
            }
            let dur = self.entries[ci].duration();
            let rest = if dur >= x.anchor {
                dur - x.anchor
            } else {
                0
            };
            let q = self.entries[ci].effects.spill_count(ck);
            if acc > u64::MAX - rest {
                return None;
            }
            acc = acc + rest;
            ci = ci + 1;
            ck = q;
        }
    }
}

impl TimedEffects {
    /// How many of the first `k` effects carry over into the next entry.
    pub fn spill_count(&self, k: usize) -> (r: usize)
        requires
            k <= self@.len(),
        ensures
            r == spill_index(self@, k as int),
    {
        let mut count: usize = 0;
        let mut j: usize = 0;
        while j < k
            invariant
                k <= self@.len(),
                j <= k,
                count == spill_over(self@.take(j as int)).len(),
                count <= j,
            decreases k - j,
        {
            assert(self@.take(j + 1).drop_last() =~= self@.take(j as int));
            if self.effects[j].spill_over_effect().is_some() {
                count = count + 1;
            }
            j = j + 1;
        }
        count
    }
}

/// An effect with its duration filled in from its span where it was open and the span is
/// known and fits in a `u64`.
pub open spec fn with_span(x: EffectView, span: Option<nat>) -> EffectView {
    match x.duration {
        Some(_) => x,
        None => match span {
            Some(v) => if v <= u64::MAX {
                EffectView { duration: Some(v as u64), ..x }
            } else {
                x
            },
            None => x,
        },
    }
}

/// A span reads only its own entry and those after it.
pub proof fn lemma_span_from_suffix(a: Seq<Entry>, b: Seq<Entry>, i: int, k: int)
    requires
        a.len() == b.len(),
        0 <= i,
        forall|j: int| i <= j < a.len() ==> (#[trigger] a[j]) == b[j],
    ensures
        span_from(a, i, k) == span_from(b, i, k),
    decreases a.len() - i,
{
    if i < a.len() && 0 <= k < a[i].effects@.len() {
        lemma_span_from_suffix(a, b, i + 1, spill_index(a[i].effects@, k));
    }
}

impl TimedEffects {
    /// Gives each open effect the duration listed for it, where one is listed.
    pub fn close_with(&mut self, spans: &Vec<Option<u64>>)
        requires
            spans@.len() == old(self)@.len(),
        ensures
            final(self)@.len() == old(self)@.len(),
            forall|k: int|
                0 <= k < old(self)@.len() ==> (#[trigger] final(self)@[k]) == match (
                    old(self)@[k].duration,
                    spans@[k],
                ) {
                    (None, Some(v)) => EffectView { duration: Some(v), ..old(self)@[k] },
                    _ => old(self)@[k],
                },
    {
        let n = self.effects.len();
        let mut k: usize = 0;
        while k < n
            invariant
                n == old(self)@.len(),
                spans@.len() == n,
                self@.len() == n,
                k <= n,
                forall|j: int| k <= j < n ==> (#[trigger] self@[j]) == old(self)@[j],
                forall|j: int|
                    0 <= j < k ==> (#[trigger] self@[j]) == match (
                        old(self)@[j].duration,
                        spans@[j],
                    ) {
                        (None, Some(v)) => EffectView { duration: Some(v), ..old(self)@[j] },
                        _ => old(self)@[j],
                    },
            decreases n - k,
        {
            assert(self@[k as int] == old(self)@[k as int]);
            let ghost before = self@;
            if self.effects[k].duration.is_none() {
                match spans[k] {
                    Some(v) => {
                        self.effects[k].duration = Some(v);
                        assert(self@ =~= before.update(
                            k as int,
                            EffectView { duration: Some(v), ..old(self)@[k as int] },
                        ));
                    },
                    None => {},
                }
            }
            k = k + 1;
        }
    }
}

impl Feed {
    /// Closes every open effect whose span is known (see `effect_span`), so that each effect
    /// covers a closed interval from its anchor. Effects that stay open through the feed's
    /// end stay open.
    pub fn close_spans(&mut self)
        ensures
            final(self).start == old(self).start,
            final(self).entries@.len() == old(self).entries@.len(),
            forall|i: int|
                0 <= i < final(self).entries@.len() ==> same_source(
                    #[trigger] final(self).entries@[i],
                    old(self).entries@[i],
                ) && final(self).entries@[i].start == old(self).entries@[i].start
                    && final(self).entries@[i].effects@.len() == old(self).entries@[i].effects@.len()
                    && forall|k: int|
                    0 <= k < final(self).entries@[i].effects@.len()
                        ==> (#[trigger] final(self).entries@[i].effects@[k]) == with_span(
                        old(self).entries@[i].effects@[k],
                        span_from(old(self).entries@, i, k),
                    ),
    {
        let n = self.entries.len();
        let mut i: usize = 0;
        while i < n
            invariant
                n == self.entries@.len(),
                n == old(self).entries@.len(),
                i <= n,
                self.start == old(self).start,
                forall|j: int| i <= j < n ==> (#[trigger] self.entries@[j]) == old(self).entries@[j],
                forall|j: int|
                    0 <= j < i ==> same_source(#[trigger] self.entries@[j], old(self).entries@[j])
                        && self.entries@[j].start == old(self).entries@[j].start
                        && self.entries@[j].effects@.len() == old(self).entries@[j].effects@.len()
                        && forall|k: int|
                        0 <= k < self.entries@[j].effects@.len() ==> (#[trigger] self.entries@[
                            j
                        ].effects@[k]) == with_span(
                            old(self).entries@[j].effects@[k],
                            span_from(old(self).entries@, j, k),
                        ),
            decreases n - i,
        {
            let m = self.entries[i].effects.effects.len();
            let mut spans: Vec<Option<u64>> = Vec::new();
            let mut k: usize = 0;
            while k < m
                invariant
                    n == self.entries@.len(),
                    n == old(self).entries@.len(),
                    i < n,
                    m == self.entries@[i as int].effects@.len(),
                    forall|j: int|
                        i <= j < n ==> (#[trigger] self.entries@[j]) == old(self).entries@[j],
                    k <= m,
                    spans@.len() == k,
                    forall|q: int|
                        0 <= q < k ==> match (#[trigger] spans@[q]) {
                            Some(v) => span_from(old(self).entries@, i as int, q) == Some(
                                v as nat,
                            ),
                            None => match span_from(old(self).entries@, i as int, q) {
                                Some(v) => v > u64::MAX,
                                None => true,
                            },
                        },
                decreases m - k,
            {
                proof {
                    lemma_span_from_suffix(self.entries@, old(self).entries@, i as int, k as int);
                }
                spans.push(self.effect_span(i, k));
                k = k + 1;
            }
            let ghost before = self.entries@[i as int];
            self.entries[i].effects.close_with(&spans);
            proof {
                assert forall|k: int| 0 <= k < self.entries@[i as int].effects@.len() implies (
                #[trigger] self.entries@[i as int].effects@[k]) == with_span(
                    old(self).entries@[i as int].effects@[k],
                    span_from(old(self).entries@, i as int, k),
                ) by {
                    assert(before.effects@[k] == old(self).entries@[i as int].effects@[k]);
                }
            }
            i = i + 1;
        }
    }
}

} // verus!
