//! Properties of resolution that hold for every input.
use vstd::prelude::*;

use crate::effects::{
    closed_by, first_match, merged, spill_over, spill_view, spills_over, token_of, trims_applied,
    EffectView, KindView, Token, TrimEffect,
};
use crate::entry::{entry_duration, trims_of, Entry};
use crate::feed::{carry_in, laid_out, prefix_duration, Feed};
use crate::project::{feeds_prefix, project_laid_out};

verus! {

/// An entry whose source reference gives both trim bounds lasts exactly `out - in`.
pub proof fn law_explicit_trim_duration(s: Seq<char>, native: u64)
    requires
        trims_of(s) is Ok,
        trims_of(s)->Ok_0.0 is Some,
        trims_of(s)->Ok_0.1 is Some,
    ensures
        ({
            let i = trims_of(s)->Ok_0.0->Some_0;
            let o = trims_of(s)->Ok_0.1->Some_0;
            i <= o && entry_duration(Some(i), Some(o), native) == o - i
        }),
{
}

/// In a laid-out feed the first entry starts where the feed starts, and every other entry
/// starts where the one before it ends.
pub proof fn law_contiguous_layout(entries: Seq<Entry>, start: u64)
    requires
        laid_out(entries, start),
    ensures
        entries.len() > 0 ==> entries[0].start == start,
        forall|i: int|
            0 <= i < entries.len() - 1 ==> (#[trigger] entries[i + 1]).start == entries[i].start
                + entries[i].spec_duration(),
{
    if entries.len() > 0 {
        assert(entries[0].start == start + prefix_duration(entries, 0));
    }
    assert forall|i: int| 0 <= i < entries.len() - 1 implies (#[trigger] entries[i + 1]).start
        == entries[i].start + entries[i].spec_duration() by {
        assert(entries[i].start == start + prefix_duration(entries, i));
        assert(entries[i + 1].start == start + prefix_duration(entries, i + 1));
    }
}

/// Trims applied without any start trim leave the in-point unset, so an end trim at `e`
/// gives an entry of length `e`: its duration counts from an in-point of zero.
pub proof fn law_trim_end_from_zero(out_point: Option<u64>, s: Seq<EffectView>, native: u64)
    requires
        forall|k: int| 0 <= k < s.len() ==> (#[trigger] s[k]).kind != KindView::Trim(
            TrimEffect::Start,
        ),
    ensures
        trims_applied(None, out_point, s).0 is None,
        trims_applied(None, out_point, s).1 matches Some(e) ==> entry_duration(
            trims_applied(None, out_point, s).0,
            Some(e),
            native,
        ) == e,
    decreases s.len(),
{
    if s.len() > 0 {
        assert(s.last() == s[s.len() - 1]);
        law_trim_end_from_zero(out_point, s.drop_last(), native);
    }
}

/// Every effect that leaves a set is an open, spillover-eligible effect anchored at zero.
pub proof fn lemma_spill_over_shape(s: Seq<EffectView>, k: int)
    requires
        0 <= k < spill_over(s).len(),
    ensures
        spill_over(s)[k].anchor == 0,
        spill_over(s)[k].duration is None,
        spills_over(spill_over(s)[k].kind),
    decreases s.len(),
{
    if s.len() > 0 {
        let p = spill_over(s.drop_last());
        if k < p.len() {
            lemma_spill_over_shape(s.drop_last(), k);
        }
    }
}

/// An open, spillover-eligible effect of a set leaves it, re-anchored at zero.
pub proof fn lemma_spill_over_keeps(s: Seq<EffectView>, k: int)
    requires
        0 <= k < s.len(),
        spill_view(s[k]) is Some,
    ensures
        spill_over(s).contains(spill_view(s[k])->Some_0),
    decreases s.len(),
{
    let y = spill_view(s[k])->Some_0;
    if k == s.len() - 1 {
        assert(spill_over(s) == spill_over(s.drop_last()).push(y));
        assert(spill_over(s)[spill_over(s).len() - 1] == y);
    } else {
        lemma_spill_over_keeps(s.drop_last(), k);
        let p = spill_over(s.drop_last());
        let j = choose|j: int| 0 <= j < p.len() && p[j] == y;
        match spill_view(s.last()) {
            Some(x) => {
                assert(spill_over(s) == p.push(x));
                assert(spill_over(s)[j] == y);
            },
            None => {},
        }
    }
}

/// No effect of `s` has token `t`, so none matches it.
pub proof fn lemma_no_match(s: Seq<EffectView>, t: Token)
    requires
        forall|k: int| 0 <= k < s.len() ==> token_of((#[trigger] s[k]).kind) != t,
    ensures
        first_match(s, t) is None,
    decreases s.len(),
{
    if s.len() > 0 {
        assert(s.last() == s[s.len() - 1]);
        lemma_no_match(s.drop_last(), t);
    }
}

/// Whether some entry from `from` on declares an effect with token `t`.
pub open spec fn declared_after(sets: Seq<Seq<EffectView>>, from: int, t: Token) -> bool {
    exists|j: int, k: int|
        from <= j < sets.len() && 0 <= k < sets[j].len() && token_of((#[trigger] sets[j][k]).kind)
            == t
}

/// An open effect carried into entry `i` that no entry from `i` on matches is carried into
/// every later entry, and is still carried, open, at the end of the feed.
pub proof fn lemma_carried_to_end(sets: Seq<Seq<EffectView>>, i: int, y: EffectView)
    requires
        0 <= i <= sets.len(),
        carry_in(sets, i).contains(y),
        !declared_after(sets, i, token_of(y.kind)),
    ensures
        forall|j: int| i <= j <= sets.len() ==> (#[trigger] carry_in(sets, j)).contains(y),
    decreases sets.len() - i,
{
    if i < sets.len() {
        let c = carry_in(sets, i);
        let m = merged(sets[i], c);
        let k = choose|k: int| 0 <= k < c.len() && c[k] == y;
        assert forall|q: int| 0 <= q < sets[i].len() implies token_of(
            (#[trigger] sets[i][q]).kind,
        ) != token_of(y.kind) by {
            if token_of(sets[i][q].kind) == token_of(y.kind) {
                assert(declared_after(sets, i, token_of(y.kind)));
            }
        }
        lemma_no_match(sets[i], token_of(y.kind));
        if i == 0 {
            assert(c.len() == 0);
        } else {
            lemma_spill_over_shape(merged(sets[i - 1], carry_in(sets, i - 1)), k);
        }
        assert(m[k] == closed_by(c[k], sets[i]));
        assert(m[k] == y);
        assert(spill_view(y) == Some(y));
        lemma_spill_over_keeps(m, k);
        assert(carry_in(sets, i + 1) == spill_over(m));
        assert(!declared_after(sets, i + 1, token_of(y.kind)));
        lemma_carried_to_end(sets, i + 1, y);
    }
}

/// An open, spillover-eligible effect of entry `i` (after it received what was carried in)
/// that no later entry matches stays open through the end of the feed: a zero-anchored open
/// copy of it is carried into every later entry and is still open when the feed ends.
pub proof fn law_open_until_feed_end(sets: Seq<Seq<EffectView>>, i: int, k: int)
    requires
        0 <= i < sets.len(),
        0 <= k < merged(sets[i], carry_in(sets, i)).len(),
        spill_view(merged(sets[i], carry_in(sets, i))[k]) is Some,
        !declared_after(
            sets,
            i + 1,
            token_of(merged(sets[i], carry_in(sets, i))[k].kind),
        ),
    ensures
        ({
            let y = spill_view(merged(sets[i], carry_in(sets, i))[k])->Some_0;
            &&& y.duration is None
            &&& forall|j: int|
                i < j <= sets.len() ==> (#[trigger] carry_in(sets, j)).contains(y)
            &&& forall|j: int|
                i < j < sets.len() ==> merged(sets[j], carry_in(sets, j)).contains(
                    #[trigger] closed_by(y, sets[j]),
                ) && closed_by(y, sets[j]) == y
        }),
{
    let m = merged(sets[i], carry_in(sets, i));
    let y = spill_view(m[k])->Some_0;
    lemma_spill_over_keeps(m, k);
    assert(carry_in(sets, i + 1) == spill_over(m));
    lemma_carried_to_end(sets, i + 1, y);
    assert forall|j: int| i < j < sets.len() implies merged(sets[j], carry_in(sets, j)).contains(
        #[trigger] closed_by(y, sets[j]),
    ) && closed_by(y, sets[j]) == y by {
        let c = carry_in(sets, j);
        assert(c.contains(y));
        let q = choose|q: int| 0 <= q < c.len() && c[q] == y;
        assert forall|p: int| 0 <= p < sets[j].len() implies token_of(
            (#[trigger] sets[j][p]).kind,
        ) != token_of(y.kind) by {
            if token_of(sets[j][p].kind) == token_of(y.kind) {
                assert(declared_after(sets, i + 1, token_of(y.kind)));
            }
        }
        lemma_no_match(sets[j], token_of(y.kind));
        assert(merged(sets[j], c)[q] == closed_by(c[q], sets[j]));
    }
}

/// Layout is a function of the entries' lengths alone: two laid-out projects whose entries
/// agree in length, as two reads of the same document with the same sources do, place every
/// entry at the same start.
pub proof fn law_layout_deterministic(a: Seq<Feed>, b: Seq<Feed>)
    requires
        project_laid_out(a),
        project_laid_out(b),
        a.len() == b.len(),
        forall|i: int|
            0 <= i < a.len() ==> (#[trigger] a[i]).entries@.len() == b[i].entries@.len(),
        forall|i: int, k: int|
            0 <= i < a.len() && 0 <= k < a[i].entries@.len() ==> (#[trigger] a[i].entries@[k]).spec_duration()
                == b[i].entries@[k].spec_duration(),
    ensures
        forall|i: int| 0 <= i < a.len() ==> (#[trigger] a[i]).start == b[i].start,
        forall|i: int, k: int|
            0 <= i < a.len() && 0 <= k < a[i].entries@.len() ==> (#[trigger] a[i].entries@[k]).start
                == b[i].entries@[k].start,
{
    assert forall|i: int| 0 <= i < a.len() implies crate::feed::total_duration(
        (#[trigger] a[i]).entries@,
    ) == crate::feed::total_duration(b[i].entries@) by {
        crate::feed::lemma_prefix_duration_same(
            a[i].entries@,
            b[i].entries@,
            a[i].entries@.len() as int,
        );
    }
    assert forall|i: int| 0 <= i < a.len() implies (#[trigger] a[i]).start == b[i].start by {
        crate::project::lemma_feeds_prefix_same(a, b, i);
    }
    assert forall|i: int, k: int|
        0 <= i < a.len() && 0 <= k < a[i].entries@.len() implies (#[trigger] a[i].entries@[k]).start
        == b[i].entries@[k].start by {
        crate::project::lemma_feeds_prefix_same(a, b, i);
        crate::feed::lemma_prefix_duration_same(a[i].entries@, b[i].entries@, k);
        assert(laid_out(a[i].entries@, a[i].start));
        assert(laid_out(b[i].entries@, b[i].start));
    }
}

} // verus!
