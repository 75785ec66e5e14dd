//! Effects anchored in an entry's local time, and the ordered set that owns them.
use vstd::prelude::*;

verus! {

/// Which edge of an entry a trim moves.
#[derive(PartialEq, Eq, Structural, Clone, Copy, Debug)]
pub enum TrimEffect {
    Start,
    End,
}

/// A change of loudness; the level is kept as the document wrote it.
#[derive(Debug)]
pub struct VolumeEffect {
    pub level: String,
}

/// A change of playback speed; the factor is kept as the document wrote it.
#[derive(Debug)]
pub struct TimeCompressionEffect {
    pub factor: String,
}

#[derive(Debug)]
pub enum EffectKind {
    Trim(TrimEffect),
    Volume(VolumeEffect),
    TimeCompression(TimeCompressionEffect),
}

/// The kind of an effect without its parameter: effects match when their tokens are equal.
#[derive(PartialEq, Eq, Structural, Clone, Copy, Debug)]
pub enum Token {
    TrimStart,
    TrimEnd,
    Volume,
    TimeCompression,
}

/// One effect: what it does, where it starts in its entry, and how long it lasts
/// (`None` while it is open).
#[derive(Debug)]
pub struct Effect {
    pub kind: EffectKind,
    pub anchor: u64,
    pub duration: Option<u64>,
}

pub enum KindView {
    Trim(TrimEffect),
    Volume(Seq<char>),
    TimeCompression(Seq<char>),
}

pub struct EffectView {
    pub kind: KindView,
    pub anchor: u64,
    pub duration: Option<u64>,
}

impl View for EffectKind {
    type V = KindView;

    open spec fn view(&self) -> KindView {
        match self {
            EffectKind::Trim(t) => KindView::Trim(*t),
            EffectKind::Volume(v) => KindView::Volume(v.level@),
            EffectKind::TimeCompression(c) => KindView::TimeCompression(c.factor@),
        }
    }
}

impl View for Effect {
    type V = EffectView;

    open spec fn view(&self) -> EffectView {
        EffectView { kind: self.kind@, anchor: self.anchor, duration: self.duration }
    }
}

pub open spec fn token_of(k: KindView) -> Token {
    match k {
        KindView::Trim(TrimEffect::Start) => Token::TrimStart,
        KindView::Trim(TrimEffect::End) => Token::TrimEnd,
        KindView::Volume(_) => Token::Volume,
        KindView::TimeCompression(_) => Token::TimeCompression,
    }
}

/// Volume and speed changes carry over into the next entry; trims never do.
pub open spec fn spills_over(k: KindView) -> bool {
    !(k is Trim)
}

/// `a - b`, or zero where `b` is the larger.
pub open spec fn gap(a: u64, b: u64) -> u64 {
    if a >= b {
        (a - b) as u64
    } else {
        0
    }
}

/// The copy of an open, spillover-eligible effect that the next entry receives.
pub open spec fn spill_view(e: EffectView) -> Option<EffectView> {
    if spills_over(e.kind) && e.duration is None {
        Some(EffectView { kind: e.kind, anchor: 0, duration: None })
    } else {
        None
    }
}

/// Index of the first effect of `s` with token `t`.
pub open spec fn first_match(s: Seq<EffectView>, t: Token) -> Option<int>
    decreases s.len(),
{
    if s.len() == 0 {
        None
    } else {
        match first_match(s.drop_last(), t) {
            Some(j) => Some(j),
            None => if token_of(s.last().kind) == t {
                Some(s.len() - 1)
            } else {
                None
            },
        }
    }
}

/// A carried effect, closed by the first effect of `cur` of its kind if there is one.
pub open spec fn closed_by(c: EffectView, cur: Seq<EffectView>) -> EffectView {
    match first_match(cur, token_of(c.kind)) {
        Some(j) => EffectView {
            kind: c.kind,
            anchor: c.anchor,
            duration: Some(gap(cur[j].anchor, c.anchor)),
        },
        None => c,
    }
}

/// The carried effects, each closed where `cur` allows, in front of `cur`.
pub open spec fn merged(cur: Seq<EffectView>, carried: Seq<EffectView>) -> Seq<EffectView> {
    Seq::new(carried.len(), |i: int| closed_by(carried[i], cur)) + cur
}

/// The open effects of `s` that carry over, in order, each re-anchored at zero.
pub open spec fn spill_over(s: Seq<EffectView>) -> Seq<EffectView>
    decreases s.len(),
{
    if s.len() == 0 {
        Seq::empty()
    } else {
        match spill_view(s.last()) {
            Some(x) => spill_over(s.drop_last()).push(x),
            None => spill_over(s.drop_last()),
        }
    }
}

/// In- and out-points after the trims of `s` are applied in order.
pub open spec fn trims_applied(
    in_point: Option<u64>,
    out_point: Option<u64>,
    s: Seq<EffectView>,
) -> (Option<u64>, Option<u64>)
    decreases s.len(),
{
    if s.len() == 0 {
        (in_point, out_point)
    } else {
        let (i, o) = trims_applied(in_point, out_point, s.drop_last());
        match s.last().kind {
            KindView::Trim(TrimEffect::Start) => (Some(s.last().anchor), o),
            KindView::Trim(TrimEffect::End) => (i, Some(s.last().anchor)),
            _ => (i, o),
        }
    }
}

/// An effect `x` already in a set, once `e` of the same kind is added after it.
pub open spec fn ended_by(x: EffectView, e: EffectView) -> EffectView {
    if token_of(x.kind) == token_of(e.kind) && x.duration is None {
        EffectView { kind: x.kind, anchor: x.anchor, duration: Some(gap(e.anchor, x.anchor)) }
    } else {
        x
    }
}

impl EffectKind {
    pub fn duplicate(&self) -> (r: EffectKind)
        ensures
            r@ == self@,
    {
        match self {
            EffectKind::Trim(t) => EffectKind::Trim(*t),
            EffectKind::Volume(v) => EffectKind::Volume(VolumeEffect { level: v.level.clone() }),
            EffectKind::TimeCompression(c) => EffectKind::TimeCompression(
                TimeCompressionEffect { factor: c.factor.clone() },
            ),
        }
    }
}

impl Effect {
    pub fn new(kind: EffectKind, anchor: u64) -> (r: Effect)
        ensures
            r@ == (EffectView { kind: kind@, anchor, duration: None }),
    {
        Effect { kind, anchor, duration: None }
    }

    pub fn duplicate(&self) -> (r: Effect)
        ensures
            r@ == self@,
    {
        Effect { kind: self.kind.duplicate(), anchor: self.anchor, duration: self.duration }
    }

    /// The token by which effects of the same kind find each other.
    pub fn tok(&self) -> (r: Token)
        ensures
            r == token_of(self@.kind),
    {
        match &self.kind {
            EffectKind::Trim(TrimEffect::Start) => Token::TrimStart,
            EffectKind::Trim(TrimEffect::End) => Token::TrimEnd,
            EffectKind::Volume(_) => Token::Volume,
            EffectKind::TimeCompression(_) => Token::TimeCompression,
        }
    }

    /// Where the effect starts, in its entry's local time.
    pub fn start(&self) -> (r: u64)
        ensures
            r == self.anchor,
    {
        self.anchor
    }

    pub fn set_start(&mut self, start: u64)
        ensures
            final(self)@ == (EffectView { anchor: start, ..old(self)@ }),
    {
        self.anchor = start;
    }

    pub fn duration(&self) -> (r: Option<u64>)
        ensures
            r == self.duration,
    {
        self.duration
    }

    pub fn set_duration(&mut self, duration: Option<u64>)
        ensures
            final(self)@ == (EffectView { duration, ..old(self)@ }),
    {
        self.duration = duration;
    }

    /// A fresh open copy anchored at zero, if this effect is open and carries over.
    pub fn spill_over_effect(&self) -> (r: Option<Effect>)
        ensures
            r matches Some(x) ==> spill_view(self@) == Some(x@),
            r is None ==> spill_view(self@) is None,
    {
        match &self.kind {
            EffectKind::Trim(_) => None,
            _ => if self.duration.is_none() {
                Some(Effect { kind: self.kind.duplicate(), anchor: 0, duration: None })
            } else {
                None
            },
        }
    }
}

/// The ordered effects of one entry, in document order.
#[derive(Debug)]
pub struct TimedEffects {
    pub effects: Vec<Effect>,
}

impl View for TimedEffects {
    type V = Seq<EffectView>;

    open spec fn view(&self) -> Seq<EffectView> {
        Seq::new(self.effects@.len(), |i: int| self.effects@[i]@)
    }
}

pub proof fn lemma_first_match_prefix(s: Seq<EffectView>, t: Token, i: int)
    requires
        0 <= i < s.len(),
        first_match(s.take(i), t) is None,
    ensures
        first_match(s.take(i + 1), t) == (if token_of(s[i].kind) == t {
            Some(i)
        } else {
            None::<int>
        }),
{
    assert(s.take(i + 1).drop_last() =~= s.take(i));
}

pub proof fn lemma_first_match_found(s: Seq<EffectView>, t: Token, i: int, k: int)
    requires
        0 <= i <= k <= s.len(),
        first_match(s.take(i), t) is Some,
    ensures
        first_match(s.take(k), t) == first_match(s.take(i), t),
    decreases k - i,
{
    if i < k {
        lemma_first_match_found(s, t, i, k - 1);
        assert(s.take(k).drop_last() =~= s.take(k - 1));
    }
}

impl TimedEffects {
    pub fn new() -> (r: TimedEffects)
        ensures
            r@ == Seq::<EffectView>::empty(),
    {
        TimedEffects { effects: Vec::new() }
    }

    pub fn len(&self) -> (r: usize)
        ensures
            r == self@.len(),
    {
        self.effects.len()
    }

    /// In- and out-points after this set's trims are applied in document order: a start
    /// trim moves the in-point to its anchor, an end trim moves the out-point to its anchor.
    pub fn apply(&self, in_point: Option<u64>, out_point: Option<u64>) -> (r: (
        Option<u64>,
        Option<u64>,
    ))
        ensures
            r == trims_applied(in_point, out_point, self@),
    {
        let mut r = (in_point, out_point);
        let mut i: usize = 0;
        while i < self.effects.len()
            invariant
                i <= self@.len(),
                r == trims_applied(in_point, out_point, self@.take(i as int)),
            decreases self@.len() - i,
        {
            assert(self@.take(i + 1).drop_last() =~= self@.take(i as int));
            let a = self.effects[i].anchor;
            match &self.effects[i].kind {
                EffectKind::Trim(TrimEffect::Start) => {
                    r = (Some(a), r.1);
                },
                EffectKind::Trim(TrimEffect::End) => {
                    r = (r.0, Some(a));
                },
                _ => {},
            }
            i = i + 1;
        }
        assert(self@.take(self@.len() as int) =~= self@);
        r
    }

    /// Appends `effect`.
    pub fn add(&mut self, effect: Effect)
        ensures
            final(self)@ == old(self)@.push(effect@),
    {
        self.effects.push(effect);
        assert(self@ =~= old(self)@.push(effect@));
    }

    /// Appends every effect of `other`, in order.
    pub fn extend(&mut self, other: TimedEffects)
        ensures
            final(self)@ == old(self)@ + other@,
    {
        let mut other = other;
        let ghost o = other@;
        self.effects.append(&mut other.effects);
        assert(self@ =~= old(self)@ + o);
    }

    /// Appends `effect` after ending every open effect of the same kind where it starts.
    pub fn add_closing(&mut self, effect: Effect)
        ensures
            final(self)@ == Seq::new(old(self)@.len(), |i: int| ended_by(old(self)@[i], effect@)).push(
                effect@,
            ),
    {
        let t = effect.tok();
        let n = self.effects.len();
        let mut i: usize = 0;
        while i < n
            invariant
                n == old(self)@.len(),
                self@.len() == n,
                i <= n,
                forall|k: int| 0 <= k < i ==> self@[k] == ended_by(old(self)@[k], effect@),
                forall|k: int| i <= k < n ==> self@[k] == old(self)@[k],
                t == token_of(effect@.kind),
            decreases n - i,
        {
            let ghost before = self@;
            if self.effects[i].tok() == t && self.effects[i].duration.is_none() {
                let a = self.effects[i].anchor;
                let d = if effect.anchor >= a {
                    effect.anchor - a
                } else {
                    0
                };
                self.effects[i].duration = Some(d);
                assert(self@ =~= before.update(i as int, ended_by(old(self)@[i as int], effect@)));
            } else {
                assert(self@[i as int] == ended_by(old(self)@[i as int], effect@));
            }
            i = i + 1;
        }
        let ghost mid = self@;
        let ghost ev = effect@;
        assert(mid =~= Seq::new(old(self)@.len(), |i: int| ended_by(old(self)@[i], ev)));
        self.effects.push(effect);
        assert(self@ =~= mid.push(ev));
    }

    /// Index of the first effect with token `t`.
    pub fn find_first(&self, t: Token) -> (r: Option<usize>)
        ensures
            r matches Some(j) ==> first_match(self@, t) == Some(j as int) && j < self@.len(),
            r is None ==> first_match(self@, t) is None,
    {
        let mut i: usize = 0;
        while i < self.effects.len()
            invariant
                i <= self@.len(),
                first_match(self@.take(i as int), t) is None,
            decreases self@.len() - i,
        {
            proof {
                lemma_first_match_prefix(self@, t, i as int);
            }
            if self.effects[i].tok() == t {
                proof {
                    lemma_first_match_found(self@, t, i + 1, self@.len() as int);
                    assert(self@.take(self@.len() as int) =~= self@);
                }
                return Some(i);
            }
            i = i + 1;
        }
        assert(self@.take(self@.len() as int) =~= self@);
        None
    }

    /// The open effects that carry over into the next entry, re-anchored at zero.
    pub fn spill_over_effects(&self) -> (r: TimedEffects)
        ensures
            r@ == spill_over(self@),
    {
        let mut out = TimedEffects::new();
        let mut i: usize = 0;
        while i < self.effects.len()
            invariant
                i <= self@.len(),
                out@ == spill_over(self@.take(i as int)),
            decreases self@.len() - i,
        {
            assert(self@.take(i + 1).drop_last() =~= self@.take(i as int));
            match self.effects[i].spill_over_effect() {
                Some(x) => out.add(x),
                None => {},
            }
            i = i + 1;
        }
        assert(self@.take(self@.len() as int) =~= self@);
        out
    }

    /// Puts the effects carried from the previous entry in front of this set.
    ///
    /// Each carried effect, in order, is closed by the first effect of this set of the same
    /// kind: its duration becomes the distance from its anchor to that effect's anchor.
    /// Carried effects with no match stay open. Returns what carries on into the next entry:
    /// the open, spillover-eligible effects of the merged set, each re-anchored at zero.
    pub fn prepend(&mut self, carried: TimedEffects) -> (r: TimedEffects)
        ensures
            final(self)@ == merged(old(self)@, carried@),
            r@ == spill_over(merged(old(self)@, carried@)),
    {
        let ghost cur = self@;
        let mut front: Vec<Effect> = Vec::new();
        let mut i: usize = 0;
        while i < carried.effects.len()
            invariant
                self@ == cur,
                i <= carried@.len(),
                front@.len() == i,
                forall|k: int| 0 <= k < i ==> (#[trigger] front@[k])@ == closed_by(carried@[k], cur),
            decreases carried@.len() - i,
        {
            let c = &carried.effects[i];
            let mut x = c.duplicate();
            match self.find_first(c.tok()) {
                Some(j) => {
                    let a = self.effects[j].anchor;
                    let d = if a >= c.anchor {
                        a - c.anchor
                    } else {
                        0
                    };
                    x.duration = Some(d);
                },
                None => {},
            }
            front.push(x);
            i = i + 1;
        }
        front.append(&mut self.effects);
        self.effects = front;
        assert(self@ =~= merged(cur, carried@));
        self.spill_over_effects()
    }
}

} // verus!
