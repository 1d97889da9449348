use vstd::prelude::*;
use crate::metric::{Metric, MetricKind, same_identity, metric_equiv, value_merged};

verus! {

/// The index of the first series in `series` sharing `m`'s identity, or -1.
pub open spec fn first_match(series: Seq<Metric>, m: Metric) -> int
    decreases series.len(),
{
    if series.len() == 0 {
        -1
    } else if same_identity(series[0], m) {
        0
    } else {
        let r = first_match(series.drop_first(), m);
        if r == -1 {
            -1
        } else {
            r + 1
        }
    }
}

proof fn lemma_first_match_at(series: Seq<Metric>, m: Metric, i: int)
    requires
        0 <= i < series.len(),
        same_identity(series[i], m),
        forall|j: int| 0 <= j < i ==> !same_identity(series[j], m),
    ensures
        first_match(series, m) == i,
    decreases i,
{
    if i == 0 {
    } else {
        let tail = series.drop_first();
        assert(tail[i - 1] == series[i]);
        assert forall|j: int| 0 <= j < i - 1 implies !same_identity(tail[j], m) by {
            assert(tail[j] == series[j + 1]);
        }
        lemma_first_match_at(tail, m, i - 1);
    }
}

proof fn lemma_first_match_none(series: Seq<Metric>, m: Metric)
    requires
        forall|j: int| 0 <= j < series.len() ==> !same_identity(series[j], m),
    ensures
        first_match(series, m) == -1,
    decreases series.len(),
{
    if series.len() > 0 {
        let tail = series.drop_first();
        assert forall|j: int| 0 <= j < tail.len() implies !same_identity(tail[j], m) by {
            assert(tail[j] == series[j + 1]);
        }
        lemma_first_match_none(tail, m);
    }
}

/// The aggregation registry: the resting state of every tracked series,
/// keyed by identity (name plus tag mapping). An explicitly constructed
/// object the application threads through its producers and consumers; the
/// registry itself provides per-call exclusive access through `&mut`.
pub struct MetricRegistry {
    pub series: Vec<Metric>,
}

impl MetricRegistry {
    pub open spec fn wf(self) -> bool {
        forall|i: int| 0 <= i < self.series@.len() ==> self.series@[i].wf()
    }

    pub fn new() -> (r: MetricRegistry)
        ensures
            r.wf(),
            r.series@.len() == 0,
    {
        MetricRegistry { series: Vec::new() }
    }

    pub fn len(&self) -> (r: usize)
        ensures
            r == self.series@.len(),
    {
        self.series.len()
    }

    /// Fold one observation into the registry: the first series with the
    /// observation's identity is replaced by it when it is absolute, merged
    /// with it when it is incremental; with no such series the observation
    /// becomes a new series.
    pub fn merge_in(&mut self, observation: Metric)
        requires
            old(self).wf(),
            observation.wf(),
        ensures
            final(self).wf(),
            ({
                let idx = first_match(old(self).series@, observation);
                if idx == -1 {
                    final(self).series@ =~= old(self).series@.push(observation)
                } else {
                    &&& final(self).series@.len() == old(self).series@.len()
                    &&& forall|j: int|
                        0 <= j < final(self).series@.len() && j != idx ==> final(self).series@[j]
                            == old(self).series@[j]
                    &&& (observation.kind matches MetricKind::Absolute
                        ==> final(self).series@[idx] == observation)
                    &&& (observation.kind matches MetricKind::Incremental ==> ({
                        let prev = old(self).series@[idx];
                        let cur = final(self).series@[idx];
                        &&& cur.name == prev.name
                        &&& cur.timestamp == prev.timestamp
                        &&& cur.tags == prev.tags
                        &&& cur.kind == prev.kind
                        &&& value_merged(prev.value, observation.value, cur.value)
                    }))
                }
            }),
    {
        let mut i: usize = 0;
        loop
            invariant
                self == old(self),
                self.wf(),
                observation.wf(),
                i <= self.series@.len(),
                forall|j: int| 0 <= j < i ==> !same_identity(self.series@[j], observation),
            ensures
                self == old(self),
                i <= self.series@.len(),
                forall|j: int| 0 <= j < i ==> !same_identity(self.series@[j], observation),
                i < self.series@.len() ==> same_identity(self.series@[i as int], observation),
            decreases self.series@.len() - i,
        {
            if i >= self.series.len() {
                break ;
            }
            if self.series[i].is_same_series(&observation) {
                break ;
            }
            i = i + 1;
        }
        if i < self.series.len() {
            proof {
                lemma_first_match_at(self.series@, observation, i as int);
            }
            let ghost prevseq = self.series@;
            if observation.kind.is_absolute() {
                self.series.remove(i);
                self.series.insert(i, observation);
                proof {
                    prevseq.remove_ensures(i as int);
                    prevseq.remove(i as int).insert_ensures(i as int, self.series@[i as int]);
                    assert forall|j: int|
                        0 <= j < self.series@.len() && j != i implies self.series@[j]
                        == prevseq[j] by {
                        if j < i {
                        } else {
                            assert(self.series@[(j - 1) + 1] == prevseq.remove(i as int)[j - 1]);
                            assert(prevseq.remove(i as int)[j - 1] == prevseq[j]);
                        }
                    }
                }
            } else {
                let mut m = self.series.remove(i);
                m.add(&observation);
                self.series.insert(i, m);
                proof {
                    prevseq.remove_ensures(i as int);
                    prevseq.remove(i as int).insert_ensures(i as int, self.series@[i as int]);
                    assert forall|j: int|
                        0 <= j < self.series@.len() && j != i implies self.series@[j]
                        == prevseq[j] by {
                        if j < i {
                        } else {
                            assert(self.series@[(j - 1) + 1] == prevseq.remove(i as int)[j - 1]);
                            assert(prevseq.remove(i as int)[j - 1] == prevseq[j]);
                        }
                    }
                }
            }
        } else {
            proof {
                lemma_first_match_none(self.series@, observation);
            }
            self.series.push(observation);
        }
    }

    /// A point-in-time, read-only enumeration of every tracked series'
    /// current resting state. The registry is left untouched.
    pub fn snapshot(&self) -> (r: Vec<Metric>)
        requires
            self.wf(),
        ensures
            r@.len() == self.series@.len(),
            forall|i: int|
                0 <= i < r@.len() ==> metric_equiv(r@[i], self.series@[i]) && r@[i].wf(),
    {
        let mut r: Vec<Metric> = Vec::new();
        let mut i: usize = 0;
        while i < self.series.len()
            invariant
                self.wf(),
                i <= self.series@.len(),
                r@.len() == i,
                forall|j: int|
                    0 <= j < i ==> metric_equiv(r@[j], self.series@[j]) && r@[j].wf(),
            decreases self.series@.len() - i,
        {
            r.push(self.series[i].duplicate());
            i = i + 1;
        }
        r
    }
}

} // verus!
