use vstd::prelude::*;
use crate::decimal::{Decimal, dec_add_spec};
use crate::tags::TagMap;
use crate::strset::StringSet;
use crate::timestamp::Timestamp;
use crate::text::lex_lt;

verus! {

/// A metric may be an incremental value, updating the previous value of the
/// metric, or absolute, which sets the reference for future increments.
#[derive(Clone, Copy, Debug, PartialEq, Eq, Structural, Hash)]
pub enum MetricKind {
    Incremental,
    Absolute,
}

impl MetricKind {
    pub fn is_absolute(&self) -> (r: bool)
        ensures
            r == (*self matches MetricKind::Absolute),
    {
        match *self {
            MetricKind::Absolute => true,
            MetricKind::Incremental => false,
        }
    }

    pub fn is_incremental(&self) -> (r: bool)
        ensures
            r == (*self matches MetricKind::Incremental),
    {
        match *self {
            MetricKind::Absolute => false,
            MetricKind::Incremental => true,
        }
    }
}

/// Which aggregated statistic a raw distribution is destined for.
#[derive(Clone, Copy, Debug, PartialEq, Eq, Structural, Hash)]
pub enum StatisticKind {
    Histogram,
    Summary,
}

/// The payload of a metric observation.
#[derive(Clone, Debug, PartialEq)]
pub enum MetricValue {
    /// A simple running total that only a reset may decrease.
    Counter { value: Decimal },
    /// A sampled numerical value; incremental observations are deltas.
    Gauge { value: Decimal },
    /// An unordered collection of distinct observed keys.
    KeySet { values: StringSet },
    /// Sampled values paired with the rate at which each was observed,
    /// not yet bucketed.
    Distribution { values: Vec<Decimal>, sample_rates: Vec<u32>, statistic: StatisticKind },
    /// Observations counted into buckets; each bucket value is the upper
    /// bound of its range. `count` and `sum` cover all observations.
    AggregatedHistogram { buckets: Vec<Decimal>, counts: Vec<u32>, count: u32, sum: Decimal },
    /// Observations summarized at quantile points (0 <= q <= 1), with the
    /// value at each quantile, plus the total count and sum.
    AggregatedSummary { quantiles: Vec<Decimal>, values: Vec<Decimal>, count: u32, sum: Decimal },
}

/// All decimals in a sequence are well formed.
pub open spec fn decs_wf(s: Seq<Decimal>) -> bool {
    forall|i: int| 0 <= i < s.len() ==> s[i].wf()
}

impl MetricValue {
    /// Structural invariants: parallel sequences have equal lengths and all
    /// numbers are normalized.
    pub open spec fn wf(self) -> bool {
        match self {
            MetricValue::Counter { value } => value.wf(),
            MetricValue::Gauge { value } => value.wf(),
            MetricValue::KeySet { values } => values.wf(),
            MetricValue::Distribution { values, sample_rates, statistic } => values@.len()
                == sample_rates@.len() && decs_wf(values@),
            MetricValue::AggregatedHistogram { buckets, counts, count, sum } => buckets@.len()
                == counts@.len() && decs_wf(buckets@) && sum.wf(),
            MetricValue::AggregatedSummary { quantiles, values, count, sum } => quantiles@.len()
                == values@.len() && decs_wf(quantiles@) && decs_wf(values@) && sum.wf(),
        }
    }
}

/// One observation, or the resting state of one series: a named, optionally
/// timestamped and tagged payload with a kind flag.
#[derive(Clone, Debug, PartialEq)]
pub struct Metric {
    pub name: String,
    pub timestamp: Option<Timestamp>,
    pub tags: Option<TagMap>,
    pub kind: MetricKind,
    pub value: MetricValue,
}

impl Metric {
    pub open spec fn wf(self) -> bool {
        &&& match self.timestamp {
            Some(t) => t.wf(),
            None => true,
        }
        &&& match self.tags {
            Some(t) => t.wf(),
            None => true,
        }
        &&& self.value.wf()
    }
}

/// The exact sum when it is representable.
pub open spec fn dec_add_opt(a: Decimal, b: Decimal) -> Option<Decimal> {
    let (m, s) = dec_add_spec(a, b);
    if i64::MIN <= m <= i64::MAX {
        Some(Decimal { mantissa: m as i64, scale: s as u32 })
    } else {
        None
    }
}

/// What a counter or gauge holds after merging a delta `b` into `a`: the
/// exact sum, or `a` unchanged when the sum is not representable.
pub open spec fn merged_num(a: Decimal, b: Decimal) -> Decimal {
    match dec_add_opt(a, b) {
        Some(c) => c,
        None => a,
    }
}

/// Position-wise bucket-count sums all fit in `u32`.
pub open spec fn counts_fit(a: Seq<u32>, b: Seq<u32>) -> bool {
    forall|i: int| 0 <= i < a.len() ==> a[i] + b[i] <= u32::MAX
}

/// Position-wise bucket-count sums.
pub open spec fn summed_counts(a: Seq<u32>, b: Seq<u32>) -> Seq<u32> {
    Seq::new(a.len(), |i: int| (a[i] + b[i]) as u32)
}

/// A histogram merge goes through only when every accumulated quantity
/// stays representable.
pub open spec fn hist_merge_ok(ca: Seq<u32>, cb: Seq<u32>, c1: u32, c2: u32, s1: Decimal, s2:
    Decimal) -> bool {
    &&& counts_fit(ca, cb)
    &&& c1 + c2 <= u32::MAX
    &&& dec_add_opt(s1, s2) is Some
}

/// How the payload of the receiving series relates to its old payload after
/// merging an incremental payload `ov` into `tv`: same-variant pairs merge
/// by their own rule, mismatched pairs leave the target unchanged.
pub open spec fn value_merged(tv: MetricValue, ov: MetricValue, nv: MetricValue) -> bool {
    match (tv, ov) {
        (MetricValue::Counter { value: a }, MetricValue::Counter { value: b }) => nv
            == (MetricValue::Counter { value: merged_num(a, b) }),
        (MetricValue::Gauge { value: a }, MetricValue::Gauge { value: b }) => nv
            == (MetricValue::Gauge { value: merged_num(a, b) }),
        (MetricValue::KeySet { values: a }, MetricValue::KeySet { values: b }) => nv matches
            MetricValue::KeySet { values: c } && c.wf() && c@ == a@.union(b@),
        (
            MetricValue::Distribution { values: va, sample_rates: ra, statistic: sa },
            MetricValue::Distribution { values: vb, sample_rates: rb, statistic: sb },
        ) => if sa == sb {
            nv matches MetricValue::Distribution { values: v, sample_rates: r, statistic: s }
                && v@ == va@ + vb@ && r@ == ra@ + rb@ && s == sa
        } else {
            nv == tv
        },
        (
            MetricValue::AggregatedHistogram { buckets: ba, counts: ca, count: c1, sum: s1 },
            MetricValue::AggregatedHistogram { buckets: bb, counts: cb, count: c2, sum: s2 },
        ) => if ba@ == bb@ && ca@.len() == cb@.len() && hist_merge_ok(ca@, cb@, c1, c2, s1, s2) {
            nv matches MetricValue::AggregatedHistogram {
                buckets: nb,
                counts: nc,
                count: ncnt,
                sum: ns,
            } && nb@ == ba@ && nc@ == summed_counts(ca@, cb@) && ncnt == c1 + c2 && Some(ns)
                == dec_add_opt(s1, s2)
        } else {
            nv == tv
        },
        _ => nv == tv,
    }
}

/// A fresh vector with the same decimals.
fn copy_dec_vec(v: &Vec<Decimal>) -> (r: Vec<Decimal>)
    ensures
        r@ == v@,
{
    let mut r: Vec<Decimal> = Vec::new();
    let mut i: usize = 0;
    while i < v.len()
        invariant
            i <= v@.len(),
            r@ == v@.take(i as int),
        decreases v@.len() - i,
    {
        r.push(v[i]);
        assert(r@ =~= v@.take(i + 1));
        i = i + 1;
    }
    assert(r@ =~= v@);
    r
}

/// A fresh vector with the same integers.
fn copy_u32_vec(v: &Vec<u32>) -> (r: Vec<u32>)
    ensures
        r@ == v@,
{
    let mut r: Vec<u32> = Vec::new();
    let mut i: usize = 0;
    while i < v.len()
        invariant
            i <= v@.len(),
            r@ == v@.take(i as int),
        decreases v@.len() - i,
    {
        r.push(v[i]);
        assert(r@ =~= v@.take(i + 1));
        i = i + 1;
    }
    assert(r@ =~= v@);
    r
}

/// A fresh vector with the same strings.
fn copy_string_vec(v: &Vec<String>) -> (r: Vec<String>)
    ensures
        r@ == v@,
{
    let mut r: Vec<String> = Vec::new();
    let mut i: usize = 0;
    while i < v.len()
        invariant
            i <= v@.len(),
            r@ == v@.take(i as int),
        decreases v@.len() - i,
    {
        r.push(v[i].clone());
        assert(r@ =~= v@.take(i + 1));
        i = i + 1;
    }
    assert(r@ =~= v@);
    r
}

/// Element-wise equality of two decimal vectors.
fn dec_vec_eq(a: &Vec<Decimal>, b: &Vec<Decimal>) -> (r: bool)
    ensures
        r == (a@ == b@),
{
    if a.len() != b.len() {
        proof {
            assert(a@ != b@);
        }
        return false;
    }
    let mut i: usize = 0;
    while i < a.len()
        invariant
            i <= a@.len(),
            a@.len() == b@.len(),
            forall|j: int| 0 <= j < i ==> a@[j] == b@[j],
        decreases a@.len() - i,
    {
        if !(a[i] == b[i]) {
            return false;
        }
        i = i + 1;
    }
    proof {
        assert(a@ =~= b@);
    }
    true
}

/// Same payload content, variant by variant, compared at the level of
/// fields and views. This is what "the same metric value" means throughout
/// the library's contracts.
pub open spec fn value_equiv(a: MetricValue, b: MetricValue) -> bool {
    match (a, b) {
        (MetricValue::Counter { value: x }, MetricValue::Counter { value: y }) => x == y,
        (MetricValue::Gauge { value: x }, MetricValue::Gauge { value: y }) => x == y,
        (MetricValue::KeySet { values: x }, MetricValue::KeySet { values: y }) => x.items@ == y.items@,
        (
            MetricValue::Distribution { values: va, sample_rates: ra, statistic: sa },
            MetricValue::Distribution { values: vb, sample_rates: rb, statistic: sb },
        ) => va@ == vb@ && ra@ == rb@ && sa == sb,
        (
            MetricValue::AggregatedHistogram { buckets: ba, counts: ca, count: c1, sum: s1 },
            MetricValue::AggregatedHistogram { buckets: bb, counts: cb, count: c2, sum: s2 },
        ) => ba@ == bb@ && ca@ == cb@ && c1 == c2 && s1 == s2,
        (
            MetricValue::AggregatedSummary { quantiles: qa, values: va, count: c1, sum: s1 },
            MetricValue::AggregatedSummary { quantiles: qb, values: vb, count: c2, sum: s2 },
        ) => qa@ == qb@ && va@ == vb@ && c1 == c2 && s1 == s2,
        _ => false,
    }
}

impl StringSet {
    /// A fresh set with the same members.
    pub fn duplicate(&self) -> (r: StringSet)
        ensures
            r.items@ == self.items@,
            r@ == self@,
            r.wf() == self.wf(),
    {
        let r = StringSet { items: copy_string_vec(&self.items) };
        proof {
            assert forall|s: Seq<char>| r.contains_spec(s) <==> self.contains_spec(s) by {
                if r.contains_spec(s) {
                    let i = choose|i: int| 0 <= i < r.items@.len() && r.elem_at(i) == s;
                    assert(self.elem_at(i) == s);
                }
                if self.contains_spec(s) {
                    let i = choose|i: int| 0 <= i < self.items@.len() && self.elem_at(i) == s;
                    assert(r.elem_at(i) == s);
                }
            }
            assert(r@ =~= self@);
            assert forall|i: int, j: int|
                0 <= i < j < r.items@.len() implies (lex_lt(r.elem_at(i), r.elem_at(j)) <==> lex_lt(
                self.elem_at(i),
                self.elem_at(j),
            )) by {
                assert(r.elem_at(i) == self.elem_at(i));
                assert(r.elem_at(j) == self.elem_at(j));
            }
        }
        r
    }
}

impl TagMap {
    /// A fresh map with the same entries.
    pub fn duplicate(&self) -> (r: TagMap)
        ensures
            r.entries@ == self.entries@,
            r@ == self@,
            r.wf() == self.wf(),
    {
        let mut entries: Vec<(String, String)> = Vec::new();
        let mut i: usize = 0;
        while i < self.entries.len()
            invariant
                i <= self.entries@.len(),
                entries@ == self.entries@.take(i as int),
            decreases self.entries@.len() - i,
        {
            let k = self.entries[i].0.clone();
            let v = self.entries[i].1.clone();
            entries.push((k, v));
            assert(entries@ =~= self.entries@.take(i + 1));
            i = i + 1;
        }
        assert(entries@ =~= self.entries@);
        let r = TagMap { entries };
        proof {
            assert forall|k: Seq<char>| #[trigger] r@.contains_key(k) implies r@[k] == self@[k] by {
                assert(r.index_of(k) == self.index_of(k));
            }
            assert(r@ =~= self@);
            assert forall|i: int, j: int|
                0 <= i < j < r.entries@.len() implies (lex_lt(r.key_at(i), r.key_at(j)) <==> lex_lt(
                self.key_at(i),
                self.key_at(j),
            )) by {
                assert(r.key_at(i) == self.key_at(i));
                assert(r.key_at(j) == self.key_at(j));
            }
        }
        r
    }
}

impl MetricValue {
    /// A fresh payload with the same content.
    pub fn duplicate(&self) -> (r: MetricValue)
        ensures
            value_equiv(r, *self),
            r.wf() == self.wf(),
    {
        match self {
            MetricValue::Counter { value } => MetricValue::Counter { value: *value },
            MetricValue::Gauge { value } => MetricValue::Gauge { value: *value },
            MetricValue::KeySet { values } => MetricValue::KeySet { values: values.duplicate() },
            MetricValue::Distribution { values, sample_rates, statistic } => {
                let v = copy_dec_vec(values);
                let r2 = copy_u32_vec(sample_rates);
                MetricValue::Distribution { values: v, sample_rates: r2, statistic: *statistic }
            },
            MetricValue::AggregatedHistogram { buckets, counts, count, sum } => {
                let b = copy_dec_vec(buckets);
                let c = copy_u32_vec(counts);
                MetricValue::AggregatedHistogram {
                    buckets: b,
                    counts: c,
                    count: *count,
                    sum: *sum,
                }
            },
            MetricValue::AggregatedSummary { quantiles, values, count, sum } => {
                let q = copy_dec_vec(quantiles);
                let v = copy_dec_vec(values);
                MetricValue::AggregatedSummary {
                    quantiles: q,
                    values: v,
                    count: *count,
                    sum: *sum,
                }
            },
        }
    }
}

/// Append every element of `src` to `dst`.
fn extend_dec_vec(dst: &mut Vec<Decimal>, src: &Vec<Decimal>)
    ensures
        final(dst)@ == old(dst)@ + src@,
{
    let mut i: usize = 0;
    while i < src.len()
        invariant
            i <= src@.len(),
            dst@ == old(dst)@ + src@.take(i as int),
        decreases src@.len() - i,
    {
        dst.push(src[i]);
        assert(dst@ =~= old(dst)@ + src@.take(i + 1));
        i = i + 1;
    }
    assert(dst@ =~= old(dst)@ + src@);
}

/// Append every element of `src` to `dst`.
fn extend_u32_vec(dst: &mut Vec<u32>, src: &Vec<u32>)
    ensures
        final(dst)@ == old(dst)@ + src@,
{
    let mut i: usize = 0;
    while i < src.len()
        invariant
            i <= src@.len(),
            dst@ == old(dst)@ + src@.take(i as int),
        decreases src@.len() - i,
    {
        dst.push(src[i]);
        assert(dst@ =~= old(dst)@ + src@.take(i + 1));
        i = i + 1;
    }
    assert(dst@ =~= old(dst)@ + src@);
}

/// A vector of `n` zeros.
fn zero_u32_vec(n: usize) -> (r: Vec<u32>)
    ensures
        r@.len() == n,
        forall|i: int| 0 <= i < n ==> r@[i] == 0,
{
    let mut r: Vec<u32> = Vec::new();
    let mut i: usize = 0;
    while i < n
        invariant
            i <= n,
            r@.len() == i,
            forall|j: int| 0 <= j < i ==> r@[j] == 0,
        decreases n - i,
    {
        r.push(0);
        i = i + 1;
    }
    r
}

/// A vector of `n` decimal zeros.
fn zero_dec_vec(n: usize) -> (r: Vec<Decimal>)
    ensures
        r@.len() == n,
        forall|i: int| 0 <= i < n ==> r@[i] == (Decimal { mantissa: 0i64, scale: 0u32 }),
{
    let mut r: Vec<Decimal> = Vec::new();
    let mut i: usize = 0;
    while i < n
        invariant
            i <= n,
            r@.len() == i,
            forall|j: int| 0 <= j < i ==> r@[j] == (Decimal { mantissa: 0i64, scale: 0u32 }),
        decreases n - i,
    {
        r.push(Decimal { mantissa: 0, scale: 0 });
        i = i + 1;
    }
    r
}

/// How a payload relates to its old self after a reset: magnitudes zeroed,
/// shape (bucket bounds, quantile points, statistic) untouched, raw
/// distributions emptied.
pub open spec fn value_reset(ov: MetricValue, nv: MetricValue) -> bool {
    match ov {
        MetricValue::Counter { value } => nv == (MetricValue::Counter {
            value: Decimal { mantissa: 0i64, scale: 0u32 },
        }),
        MetricValue::Gauge { value } => nv == (MetricValue::Gauge {
            value: Decimal { mantissa: 0i64, scale: 0u32 },
        }),
        MetricValue::KeySet { values } => nv matches MetricValue::KeySet { values: c }
            && c.items@.len() == 0,
        MetricValue::Distribution { values, sample_rates, statistic } => nv matches
            MetricValue::Distribution { values: v, sample_rates: r, statistic: s } && v@.len() == 0
            && r@.len() == 0 && s == statistic,
        MetricValue::AggregatedHistogram { buckets, counts, count, sum } => nv matches
            MetricValue::AggregatedHistogram { buckets: nb, counts: nc, count: c, sum: s }
            && nb@ == buckets@ && nc@.len() == counts@.len() && (forall|i: int|
            0 <= i < nc@.len() ==> nc@[i] == 0) && c == 0 && s == (Decimal {
            mantissa: 0i64,
            scale: 0u32,
        }),
        MetricValue::AggregatedSummary { quantiles, values, count, sum } => nv matches
            MetricValue::AggregatedSummary { quantiles: nq, values: nv2, count: c, sum: s }
            && nq@ == quantiles@ && nv2@.len() == values@.len() && (forall|i: int|
            0 <= i < nv2@.len() ==> nv2@[i] == (Decimal { mantissa: 0i64, scale: 0u32 })) && c == 0
            && s == (Decimal { mantissa: 0i64, scale: 0u32 }),
    }
}

impl Metric {
    /// A copy of this metric with all its data, marked absolute.
    pub fn to_absolute(&self) -> (r: Metric)
        ensures
            r.name == self.name,
            r.timestamp == self.timestamp,
            r.kind == MetricKind::Absolute,
            value_equiv(r.value, self.value),
            match (r.tags, self.tags) {
                (Some(a), Some(b)) => a.entries@ == b.entries@,
                (None, None) => true,
                _ => false,
            },
            self.wf() ==> r.wf(),
    {
        Metric {
            name: self.name.clone(),
            timestamp: self.timestamp,
            tags: match &self.tags {
                Some(t) => Some(t.duplicate()),
                None => None,
            },
            kind: MetricKind::Absolute,
            value: self.value.duplicate(),
        }
    }

    /// Merge the data of an observation into this series' resting value.
    /// Only an incremental observation merges; an absolute one is the
    /// caller's signal to replace the series and is ignored here. Payloads
    /// of different variants, histograms with different bucket layouts, and
    /// distributions with different statistics leave the target unchanged,
    /// as does any merge whose accumulated quantity would not be
    /// representable: the worst outcome is a dropped delta, never a panic.
    pub fn add(&mut self, other: &Metric)
        requires
            old(self).wf(),
            other.wf(),
        ensures
            final(self).wf(),
            final(self).name == old(self).name,
            final(self).timestamp == old(self).timestamp,
            final(self).tags == old(self).tags,
            final(self).kind == old(self).kind,
            other.kind matches MetricKind::Absolute ==> final(self).value == old(self).value,
            other.kind matches MetricKind::Incremental ==> value_merged(
                old(self).value,
                other.value,
                final(self).value,
            ),
    {
        if other.kind.is_absolute() {
            return ;
        }
        let nv: Option<MetricValue> = match (&self.value, &other.value) {
            (MetricValue::Counter { value: a }, MetricValue::Counter { value: b }) => {
                match a.checked_add(*b) {
                    Some(c) => Some(MetricValue::Counter { value: c }),
                    None => None,
                }
            },
            (MetricValue::Gauge { value: a }, MetricValue::Gauge { value: b }) => {
                match a.checked_add(*b) {
                    Some(c) => Some(MetricValue::Gauge { value: c }),
                    None => None,
                }
            },
            (MetricValue::KeySet { values: a }, MetricValue::KeySet { values: b }) => {
                let mut c = a.duplicate();
                c.union_with(b);
                Some(MetricValue::KeySet { values: c })
            },
            (
                MetricValue::Distribution { values: va, sample_rates: ra, statistic: sa },
                MetricValue::Distribution { values: vb, sample_rates: rb, statistic: sb },
            ) => {
                if *sa == *sb {
                    let mut v = copy_dec_vec(va);
                    extend_dec_vec(&mut v, vb);
                    let mut r = copy_u32_vec(ra);
                    extend_u32_vec(&mut r, rb);
                    Some(MetricValue::Distribution { values: v, sample_rates: r, statistic: *sa })
                } else {
                    None
                }
            },
            (
                MetricValue::AggregatedHistogram { buckets: ba, counts: ca, count: c1, sum: s1 },
                MetricValue::AggregatedHistogram { buckets: bb, counts: cb, count: c2, sum: s2 },
            ) => {
                if dec_vec_eq(ba, bb) && ca.len() == cb.len() {
                    let mut fits: bool = true;
                    let mut i: usize = 0;
                    while i < ca.len()
                        invariant
                            i <= ca@.len(),
                            ca@.len() == cb@.len(),
                            fits == (forall|j: int| 0 <= j < i ==> ca@[j] + cb@[j] <= u32::MAX),
                        decreases ca@.len() - i,
                    {
                        if cb[i] > u32::MAX - ca[i] {
                            fits = false;
                        }
                        i = i + 1;
                    }
                    let csum = c1.checked_add(*c2);
                    let ssum = s1.checked_add(*s2);
                    if fits && csum.is_some() && ssum.is_some() {
                        let mut nc: Vec<u32> = Vec::new();
                        let mut j: usize = 0;
                        while j < ca.len()
                            invariant
                                j <= ca@.len(),
                                ca@.len() == cb@.len(),
                                counts_fit(ca@, cb@),
                                nc@.len() == j,
                                forall|t: int| 0 <= t < j ==> nc@[t] == ca@[t] + cb@[t],
                            decreases ca@.len() - j,
                        {
                            nc.push(ca[j] + cb[j]);
                            j = j + 1;
                        }
                        proof {
                            assert(nc@ =~= summed_counts(ca@, cb@));
                        }
                        Some(
                            MetricValue::AggregatedHistogram {
                                buckets: copy_dec_vec(ba),
                                counts: nc,
                                count: csum.unwrap(),
                                sum: ssum.unwrap(),
                            },
                        )
                    } else {
                        None
                    }
                } else {
                    None
                }
            },
            _ => None,
        };
        match nv {
            Some(v) => {
                self.value = v;
            },
            None => {},
        }
    }

    /// Zero the accumulated data without losing the registered shape:
    /// counters and gauges fall to zero, sets and raw distributions empty,
    /// histogram buckets and summary quantiles stay while their counts,
    /// values, totals and sums are zeroed.
    pub fn reset(&mut self)
        requires
            old(self).wf(),
        ensures
            final(self).wf(),
            final(self).name == old(self).name,
            final(self).timestamp == old(self).timestamp,
            final(self).tags == old(self).tags,
            final(self).kind == old(self).kind,
            value_reset(old(self).value, final(self).value),
    {
        let nv: MetricValue = match &self.value {
            MetricValue::Counter { value } => MetricValue::Counter {
                value: Decimal { mantissa: 0, scale: 0 },
            },
            MetricValue::Gauge { value } => MetricValue::Gauge {
                value: Decimal { mantissa: 0, scale: 0 },
            },
            MetricValue::KeySet { values } => MetricValue::KeySet { values: StringSet::new() },
            MetricValue::Distribution { values, sample_rates, statistic } => {
                MetricValue::Distribution {
                    values: Vec::new(),
                    sample_rates: Vec::new(),
                    statistic: *statistic,
                }
            },
            MetricValue::AggregatedHistogram { buckets, counts, count, sum } => {
                MetricValue::AggregatedHistogram {
                    buckets: copy_dec_vec(buckets),
                    counts: zero_u32_vec(counts.len()),
                    count: 0,
                    sum: Decimal { mantissa: 0, scale: 0 },
                }
            },
            MetricValue::AggregatedSummary { quantiles, values, count, sum } => {
                MetricValue::AggregatedSummary {
                    quantiles: copy_dec_vec(quantiles),
                    values: zero_dec_vec(values.len()),
                    count: 0,
                    sum: Decimal { mantissa: 0, scale: 0 },
                }
            },
        };
        self.value = nv;
    }

    /// True exactly when a tag named `name` is present and reads `value`.
    pub fn tag_matches(&self, name: &str, value: &str) -> (r: bool)
        requires
            self.wf(),
        ensures
            r == match self.tags {
                Some(t) => t@.contains_key(name@) && t@[name@] == value@,
                None => false,
            },
    {
        match &self.tags {
            Some(t) => {
                match t.get(name) {
                    Some(v) => {
                        let vc = crate::text::str_to_chars(v.as_str());
                        let wc = crate::text::str_to_chars(value);
                        crate::text::chars_eq(&vc, &wc)
                    },
                    None => false,
                }
            },
            None => false,
        }
    }
}

/// Whether two well-formed tag maps denote the same mapping.
pub fn tag_maps_eq(a: &TagMap, b: &TagMap) -> (r: bool)
    requires
        a.wf(),
        b.wf(),
    ensures
        r == (a@ == b@),
{
    if a.entries.len() != b.entries.len() {
        proof {
            if a@ == b@ {
                crate::tags::lemma_tagmap_canonical(*a, *b);
            }
        }
        return false;
    }
    let mut i: usize = 0;
    while i < a.entries.len()
        invariant
            a.wf(),
            b.wf(),
            a.entries@.len() == b.entries@.len(),
            i <= a.entries@.len(),
            forall|j: int| 0 <= j < i ==> a.key_at(j) == b.key_at(j) && a.val_at(j) == b.val_at(j),
        decreases a.entries@.len() - i,
    {
        let ak = crate::text::str_to_chars(a.entries[i].0.as_str());
        let bk = crate::text::str_to_chars(b.entries[i].0.as_str());
        let av = crate::text::str_to_chars(a.entries[i].1.as_str());
        let bv = crate::text::str_to_chars(b.entries[i].1.as_str());
        let keys_same = crate::text::chars_eq(&ak, &bk);
        let vals_same = crate::text::chars_eq(&av, &bv);
        if !keys_same || !vals_same {
            proof {
                assert(ak@ == a.key_at(i as int) && bk@ == b.key_at(i as int));
                assert(av@ == a.val_at(i as int) && bv@ == b.val_at(i as int));
                if a@ == b@ {
                    crate::tags::lemma_tagmap_canonical(*a, *b);
                    assert(a.key_at(i as int) == b.key_at(i as int));
                    assert(a.val_at(i as int) == b.val_at(i as int));
                    assert(false);
                }
            }
            return false;
        }
        i = i + 1;
    }
    proof {
        assert forall|k: Seq<char>|
            #![trigger a@.dom().contains(k)]
            #![trigger b@.dom().contains(k)]
            (a@.contains_key(k) <==> b@.contains_key(k)) && (a@.contains_key(k) ==> a@[k]
                == b@[k]) by {
            if a@.contains_key(k) {
                let j = choose|j: int| 0 <= j < a.entries@.len() && a.entries@[j].0@ == k;
                assert(a.key_at(j) == k);
                assert(b.key_at(j) == k);
                assert(b.entries@[j].0@ == k);
                assert(b@.contains_key(k));
                let ja = a.index_of(k);
                assert(a.entries@[ja].0@ == k);
                a.lemma_key_unique(ja, j);
                let jb = b.index_of(k);
                assert(b.entries@[jb].0@ == k);
                b.lemma_key_unique(jb, j);
                assert(a@[k] == a.val_at(j));
                assert(b@[k] == b.val_at(j));
            }
            if b@.contains_key(k) {
                let j = choose|j: int| 0 <= j < b.entries@.len() && b.entries@[j].0@ == k;
                assert(b.key_at(j) == k);
                assert(a.key_at(j) == k);
                assert(a.entries@[j].0@ == k);
                assert(a@.contains_key(k));
            }
        }
        assert(a@ =~= b@);
    }
    true
}

/// Two metrics belong to the same series exactly when their names and their
/// tag mappings agree; tag order and everything else play no part.
pub open spec fn same_identity(a: Metric, b: Metric) -> bool {
    &&& a.name@ == b.name@
    &&& match (a.tags, b.tags) {
        (None, None) => true,
        (Some(x), Some(y)) => x@ == y@,
        _ => false,
    }
}

/// Same observable content: equal name, timestamp, kind, tag entries and
/// payload, all compared at the level of views.
pub open spec fn metric_equiv(a: Metric, b: Metric) -> bool {
    &&& a.name@ == b.name@
    &&& a.timestamp == b.timestamp
    &&& a.kind == b.kind
    &&& match (a.tags, b.tags) {
        (None, None) => true,
        (Some(x), Some(y)) => x.entries@ == y.entries@,
        _ => false,
    }
    &&& value_equiv(a.value, b.value)
}

impl Metric {
    /// Whether this metric and `other` belong to the same series.
    pub fn is_same_series(&self, other: &Metric) -> (r: bool)
        requires
            self.wf(),
            other.wf(),
        ensures
            r == same_identity(*self, *other),
    {
        let an = crate::text::str_to_chars(self.name.as_str());
        let bn = crate::text::str_to_chars(other.name.as_str());
        if !crate::text::chars_eq(&an, &bn) {
            return false;
        }
        match (&self.tags, &other.tags) {
            (None, None) => true,
            (Some(x), Some(y)) => tag_maps_eq(x, y),
            _ => false,
        }
    }

    /// A fresh metric with the same content.
    pub fn duplicate(&self) -> (r: Metric)
        ensures
            metric_equiv(r, *self),
            self.wf() ==> r.wf(),
    {
        Metric {
            name: self.name.clone(),
            timestamp: self.timestamp,
            tags: match &self.tags {
                Some(t) => Some(t.duplicate()),
                None => None,
            },
            kind: self.kind,
            value: self.value.duplicate(),
        }
    }
}

} // verus!
