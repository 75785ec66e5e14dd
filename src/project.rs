//! The top-level timeline: feeds placed back to back from zero.
use vstd::prelude::*;

use crate::doc::Value;
use crate::error::Error;
use crate::feed::{feed_doc_err, feed_doc_ok, feed_doc_valid, laid_out, same_source, total_duration, Feed};

verus! {

/// Total length of the first `n` feeds.
pub open spec fn feeds_prefix(feeds: Seq<Feed>, n: int) -> nat
    decreases n,
{
    if n <= 0 {
        0
    } else {
        (feeds_prefix(feeds, n - 1) + total_duration(feeds[n - 1].entries@)) as nat
    }
}

/// Total length of all feeds.
pub open spec fn feeds_total(feeds: Seq<Feed>) -> nat {
    feeds_prefix(feeds, feeds.len() as int)
}

/// Feeds placed back to back from zero, and each feed's entries back to back from its start.
pub open spec fn project_laid_out(feeds: Seq<Feed>) -> bool {
    forall|i: int|
        0 <= i < feeds.len() ==> (#[trigger] feeds[i]).start == feeds_prefix(feeds, i) && laid_out(
            feeds[i].entries@,
            feeds[i].start,
        )
}

pub proof fn lemma_feeds_prefix_monotone(feeds: Seq<Feed>, i: int, j: int)
    requires
        0 <= i <= j <= feeds.len(),
    ensures
        feeds_prefix(feeds, i) <= feeds_prefix(feeds, j),
    decreases j - i,
{
    if i < j {
        lemma_feeds_prefix_monotone(feeds, i, j - 1);
    }
}

pub proof fn lemma_feeds_prefix_same(a: Seq<Feed>, b: Seq<Feed>, n: int)
    requires
        0 <= n <= a.len(),
        a.len() == b.len(),
        forall|k: int|
            0 <= k < a.len() ==> total_duration((#[trigger] a[k]).entries@) == total_duration(
                b[k].entries@,
            ),
    ensures
        feeds_prefix(a, n) == feeds_prefix(b, n),
    decreases n,
{
    if n > 0 {
        lemma_feeds_prefix_same(a, b, n - 1);
    }
}

pub proof fn lemma_total_same_sources(a: Seq<crate::entry::Entry>, b: Seq<crate::entry::Entry>)
    requires
        a.len() == b.len(),
        forall|k: int| 0 <= k < a.len() ==> same_source(#[trigger] a[k], b[k]),
    ensures
        total_duration(a) == total_duration(b),
{
    crate::feed::lemma_prefix_duration_same(a, b, a.len() as int);
}

/// The whole timeline: an ordered list of feeds.
#[derive(Debug)]
pub struct Project {
    pub feeds: Vec<Feed>,
}

impl Project {
    pub fn new() -> (r: Project)
        ensures
            r.feeds@.len() == 0,
    {
        Project { feeds: Vec::new() }
    }

    /// Reads a project node: a sequence of feed nodes, each read in turn.
    pub fn from_doc(v: &Value) -> (r: Result<Project, Error>)
        ensures
            r matches Ok(p) ==> v is List && p.feeds@.len() == v->List_0@.len() && forall|j: int|
                0 <= j < p.feeds@.len() ==> feed_doc_ok(v->List_0@[j], #[trigger] p.feeds@[j]),
            r matches Err(x) ==> !(v is List) && x == Error::MalformedShape || v is List && exists|
                j: int,
            |
                0 <= j < v->List_0@.len() && feed_doc_err(#[trigger] v->List_0@[j], x) && forall|
                    k: int,
                | 0 <= k < j ==> feed_doc_valid(#[trigger] v->List_0@[k]),
    {
        let items = match v {
            Value::List(items) => items,
            _ => {
                return Err(Error::MalformedShape);
            },
        };
        let mut feeds: Vec<Feed> = Vec::new();
        let mut i: usize = 0;
        while i < items.len()
            invariant
                *v == Value::List(*items),
                i <= items@.len(),
                feeds@.len() == i,
                forall|k: int| 0 <= k < i ==> feed_doc_ok(items@[k], #[trigger] feeds@[k]),
            decreases items@.len() - i,
        {
            match Feed::from_doc(&items[i]) {
                Ok(f) => feeds.push(f),
                Err(x) => {
                    assert forall|k: int| 0 <= k < i implies feed_doc_valid(
                        #[trigger] items@[k],
                    ) by {
                        assert(feed_doc_ok(items@[k], feeds@[k]));
                    }
                    assert(v->List_0@ == items@);
                    assert(feed_doc_err(v->List_0@[i as int], x));
                    return Err(x);
                },
            }
            i = i + 1;
        }
        Ok(Project { feeds })
    }

    /// A project always starts at zero.
    pub fn start(&self) -> (r: u64)
        ensures
            r == 0,
    {
        0
    }

    /// A project has no external anchor: its start cannot be set.
    pub fn set_start(&mut self, _start: u64) -> (r: Result<(), Error>)
        ensures
            r == Err::<(), Error>(Error::IllegalProjectMutation),
            final(self).feeds == old(self).feeds,
    {
        Err(Error::IllegalProjectMutation)
    }

    /// A project's length follows from its feeds: it cannot be set.
    pub fn set_duration(&mut self, _duration: u64) -> (r: Result<(), Error>)
        ensures
            r == Err::<(), Error>(Error::IllegalProjectMutation),
            final(self).feeds == old(self).feeds,
    {
        Err(Error::IllegalProjectMutation)
    }

    /// A project has no in-point to set.
    pub fn set_inpoint(&mut self, _inpoint: u64) -> (r: Result<(), Error>)
        ensures
            r == Err::<(), Error>(Error::IllegalProjectMutation),
            final(self).feeds == old(self).feeds,
    {
        Err(Error::IllegalProjectMutation)
    }

    /// The sum of the feeds' lengths, or `None` where it does not fit in a `u64`.
    pub fn duration(&self) -> (r: Option<u64>)
        ensures
            r matches Some(d) ==> d == feeds_total(self.feeds@),
            r is None ==> feeds_total(self.feeds@) > u64::MAX,
    {
        let mut total: u64 = 0;
        let mut i: usize = 0;
        while i < self.feeds.len()
            invariant
                i <= self.feeds@.len(),
                total == feeds_prefix(self.feeds@, i as int),
            decreases self.feeds@.len() - i,
        {
            match self.feeds[i].duration() {
                Some(d) => {
                    if total > u64::MAX - d {
                        proof {
                            lemma_feeds_prefix_monotone(
                                self.feeds@,
                                i + 1,
                                self.feeds@.len() as int,
                            );
                        }
                        return None;
                    }
                    total = total + d;
                },
                None => {
                    proof {
                        lemma_feeds_prefix_monotone(self.feeds@, i + 1, self.feeds@.len() as int);
                    }
                    return None;
                },
            }
            i = i + 1;
        }
        Some(total)
    }

    /// Applies the trims of every entry of every feed.
    pub fn apply_trims(&mut self)
        ensures
            final(self).feeds@.len() == old(self).feeds@.len(),
            forall|i: int|
                0 <= i < final(self).feeds@.len() ==> {
                    let f = #[trigger] final(self).feeds@[i];
                    let o = old(self).feeds@[i];
                    &&& f.start == o.start
                    &&& f.entries@.len() == o.entries@.len()
                    &&& forall|k: int|
                        0 <= k < f.entries@.len() ==> {
                            let e = #[trigger] f.entries@[k];
                            let oe = o.entries@[k];
                            &&& (e.in_point, e.out_point) == crate::effects::trims_applied(
                                oe.in_point,
                                oe.out_point,
                                oe.effects@,
                            )
                            &&& e.native_duration == oe.native_duration
                            &&& e.start == oe.start
                            &&& e.effects == oe.effects
                            &&& e.path == oe.path
                        }
                },
    {
        let n = self.feeds.len();
        let mut i: usize = 0;
        while i < n
            invariant
                n == self.feeds@.len(),
                n == old(self).feeds@.len(),
                i <= n,
                forall|k: int| i <= k < n ==> (#[trigger] self.feeds@[k]) == old(self).feeds@[k],
                forall|k: int|
                    0 <= k < i ==> {
                        let f = #[trigger] self.feeds@[k];
                        let o = old(self).feeds@[k];
                        &&& f.start == o.start
                        &&& f.entries@.len() == o.entries@.len()
                        &&& forall|m: int|
                            0 <= m < f.entries@.len() ==> {
                                let e = #[trigger] f.entries@[m];
                                let oe = o.entries@[m];
                                &&& (e.in_point, e.out_point) == crate::effects::trims_applied(
                                    oe.in_point,
                                    oe.out_point,
                                    oe.effects@,
                                )
                                &&& e.native_duration == oe.native_duration
                                &&& e.start == oe.start
                                &&& e.effects == oe.effects
                                &&& e.path == oe.path
                            }
                    },
            decreases n - i,
        {
            self.feeds[i].apply_trims();
            i = i + 1;
        }
    }

    /// Places the feeds back to back from zero, and the entries of each feed back to back
    /// from the feed's start.
    pub fn layout(&mut self)
        requires
            feeds_total(old(self).feeds@) <= u64::MAX,
        ensures
            project_laid_out(final(self).feeds@),
            final(self).feeds@.len() == old(self).feeds@.len(),
            forall|i: int|
                0 <= i < final(self).feeds@.len() ==> {
                    let f = #[trigger] final(self).feeds@[i];
                    let o = old(self).feeds@[i];
                    &&& f.entries@.len() == o.entries@.len()
                    &&& forall|k: int|
                        0 <= k < f.entries@.len() ==> same_source(
                            #[trigger] f.entries@[k],
                            o.entries@[k],
                        ) && f.entries@[k].effects == o.entries@[k].effects
                },
    {
        let n = self.feeds.len();
        let mut at: u64 = 0;
        let mut i: usize = 0;
        while i < n
            invariant
                n == self.feeds@.len(),
                n == old(self).feeds@.len(),
                i <= n,
                feeds_total(old(self).feeds@) <= u64::MAX,
                forall|k: int| i <= k < n ==> (#[trigger] self.feeds@[k]) == old(self).feeds@[k],
                forall|k: int|
                    0 <= k < n ==> {
                        let f = #[trigger] self.feeds@[k];
                        let o = old(self).feeds@[k];
                        &&& f.entries@.len() == o.entries@.len()
                        &&& forall|m: int|
                            0 <= m < f.entries@.len() ==> same_source(
                                #[trigger] f.entries@[m],
                                o.entries@[m],
                            ) && f.entries@[m].effects == o.entries@[m].effects
                    },
                forall|k: int|
                    0 <= k < i ==> (#[trigger] self.feeds@[k]).start == feeds_prefix(
                        old(self).feeds@,
                        k,
                    ) && laid_out(self.feeds@[k].entries@, self.feeds@[k].start),
                at == feeds_prefix(old(self).feeds@, i as int),
            decreases n - i,
        {
            proof {
                lemma_feeds_prefix_monotone(old(self).feeds@, i + 1, n as int);
            }
            let ghost o = self.feeds@[i as int];
            self.feeds[i].set_start(at);
            self.feeds[i].layout();
            proof {
                lemma_total_same_sources(self.feeds@[i as int].entries@, o.entries@);
            }
            let d = match self.feeds[i].duration() {
                Some(d) => d,
                None => 0,
            };
            at = at + d;
            i = i + 1;
        }
        proof {
            assert forall|k: int| 0 <= k < n implies total_duration(
                (#[trigger] self.feeds@[k]).entries@,
            ) == total_duration(old(self).feeds@[k].entries@) by {
                lemma_total_same_sources(self.feeds@[k].entries@, old(self).feeds@[k].entries@);
            }
            assert forall|i: int| 0 <= i < n implies (#[trigger] self.feeds@[i]).start
                == feeds_prefix(self.feeds@, i) && laid_out(
                self.feeds@[i].entries@,
                self.feeds@[i].start,
            ) by {
                lemma_feeds_prefix_same(self.feeds@, old(self).feeds@, i);
            }
        }
    }
}

} // verus!
