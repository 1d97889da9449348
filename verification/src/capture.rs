use vstd::prelude::*;
use chrono::{Datelike, Timelike};
use crate::decimal::Decimal;
use crate::metric::{Metric, MetricKind, MetricValue, StatisticKind};
use crate::tags::TagMap;
use crate::timestamp::Timestamp;

verus! {

/// One raw sample read from the internal instrumentation facility, freed of
/// its live handle: the plain values the conversion logic works on. The
/// facility's counters count in whole units and its histograms record whole
/// sample values; rate information does not exist there.
pub enum MetricSample {
    Counter(u64),
    Gauge(i64),
    Histogram(Vec<u64>),
}

#[verifier::external_type_specification]
#[verifier::external_body]
pub struct ExKey(metrics::Key);

/// Relies on `std::time::SystemTime::now`, `chrono::DateTime::from_timestamp`
/// and chrono's `Datelike`/`Timelike` accessors: the civil fields of the
/// current UTC instant. A clock before the epoch or outside chrono's range
/// falls back to the epoch instant, so no reading can panic. Which instant
/// comes back cannot be promised; the field ranges below are what chrono's
/// accessor documentation states (month 1-12, day 1-31, hour below 24,
/// minute and second below 60, nanosecond below two billion to leave room
/// for its leap-second encoding).
#[verifier::external_body]
fn now_fields() -> (r: (i32, u32, u32, u32, u32, u32, u32))
    ensures
        1 <= r.1 <= 12,
        1 <= r.2 <= 31,
        r.3 < 24,
        r.4 < 60,
        r.5 < 60,
        r.6 < 2000000000,
{
    let epoch = std::time::SystemTime::now()
        .duration_since(std::time::UNIX_EPOCH)
        .unwrap_or_default();
    let now = chrono::DateTime::from_timestamp(epoch.as_secs() as i64, epoch.subsec_nanos())
        .unwrap_or_default();
    (now.year(), now.month(), now.day(), now.hour(), now.minute(), now.second(), now.nanosecond())
}

/// Relies on `metrics::Key::name`: the metric name the key carries.
#[verifier::external_body]
fn key_name(key: &metrics::Key) -> (r: String) {
    key.name().to_owned()
}

/// Relies on `metrics::Key::labels` and `metrics::Label`'s `key` and
/// `value` accessors: the key's labels as plain text pairs, in the key's
/// own order.
#[verifier::external_body]
fn key_labels(key: &metrics::Key) -> (r: Vec<(String, String)>) {
    key.labels().map(|l| (l.key().to_owned(), l.value().to_owned())).collect()
}

/// The decimal standing for an unsigned facility reading, saturated at the
/// largest representable mantissa.
pub open spec fn dec_of_u64(v: u64) -> Decimal {
    Decimal {
        mantissa: if v <= i64::MAX {
            v as i64
        } else {
            i64::MAX
        },
        scale: 0u32,
    }
}

/// The label pairs folded into a mapping, later entries winning.
pub open spec fn labels_map(ls: Seq<(String, String)>) -> Map<Seq<char>, Seq<char>>
    decreases ls.len(),
{
    if ls.len() == 0 {
        Map::empty()
    } else {
        labels_map(ls.drop_last()).insert(ls.last().0@, ls.last().1@)
    }
}

/// Build an absolute metric from plain captured parts: the name, the label
/// pairs, the sample, and the (already validated) capture instant. Counters
/// and gauges carry their reading; a histogram sample becomes a raw
/// distribution destined for a histogram, with a uniform sample rate of one
/// per observation. An empty label set yields no tag mapping at all, so
/// consumers can skip tag rendering entirely.
pub fn from_parts(name: String, labels: Vec<(String, String)>, sample: MetricSample, now: Option<
    Timestamp,
>) -> (r: Metric)
    requires
        match now {
            Some(t) => t.wf(),
            None => true,
        },
    ensures
        r.wf(),
        r.name == name,
        r.kind == MetricKind::Absolute,
        r.timestamp == now,
        (labels@.len() == 0 <==> r.tags is None),
        r.tags matches Some(t) ==> t.wf() && t@ == labels_map(labels@),
        match sample {
            MetricSample::Counter(v) => r.value == (MetricValue::Counter { value: dec_of_u64(v) }),
            MetricSample::Gauge(v) => r.value == (MetricValue::Gauge {
                value: Decimal { mantissa: v, scale: 0u32 },
            }),
            MetricSample::Histogram(vs) => r.value matches MetricValue::Distribution {
                values,
                sample_rates,
                statistic,
            } && statistic == StatisticKind::Histogram && values@.len() == vs@.len() && (forall|
                i: int,
            |
                0 <= i < values@.len() ==> values@[i] == dec_of_u64(vs@[i])) && sample_rates@.len()
                == vs@.len() && (forall|i: int|
                0 <= i < sample_rates@.len() ==> sample_rates@[i] == 1),
        },
{
    let value: MetricValue = match sample {
        MetricSample::Counter(v) => MetricValue::Counter { value: Decimal::from_u64(v) },
        MetricSample::Gauge(v) => MetricValue::Gauge { value: Decimal::from_i64(v) },
        MetricSample::Histogram(vs) => {
            let mut values: Vec<Decimal> = Vec::new();
            let mut rates: Vec<u32> = Vec::new();
            let mut i: usize = 0;
            while i < vs.len()
                invariant
                    i <= vs@.len(),
                    values@.len() == i,
                    rates@.len() == i,
                    forall|j: int| 0 <= j < i ==> values@[j] == dec_of_u64(vs@[j]),
                    forall|j: int| 0 <= j < i ==> rates@[j] == 1,
                decreases vs@.len() - i,
            {
                values.push(Decimal::from_u64(vs[i]));
                rates.push(1);
                i = i + 1;
            }
            MetricValue::Distribution {
                values,
                sample_rates: rates,
                statistic: StatisticKind::Histogram,
            }
        },
    };
    let tags: Option<TagMap> = if labels.len() == 0 {
        None
    } else {
        let mut t = TagMap::new();
        let mut i: usize = 0;
        proof {
            assert(t@ =~= labels_map(labels@.take(0)));
        }
        while i < labels.len()
            invariant
                i <= labels@.len(),
                t.wf(),
                t@ == labels_map(labels@.take(i as int)),
            decreases labels@.len() - i,
        {
            let k = labels[i].0.clone();
            let v = labels[i].1.clone();
            t.insert(k, v);
            proof {
                assert(labels@.take(i + 1).drop_last() =~= labels@.take(i as int));
                assert(labels@.take(i + 1).last() == labels@[i as int]);
            }
            i = i + 1;
        }
        proof {
            assert(labels@.take(labels@.len() as int) =~= labels@);
        }
        Some(t)
    };
    Metric { name, timestamp: now, tags, kind: MetricKind::Absolute, value }
}

impl Metric {
    /// Convert a sample captured from the internal instrumentation
    /// facility, together with its key's name and labels, into the
    /// library's metric format: always absolute, always stamped with the
    /// capture instant (clamped into the representable calendar where the
    /// clock exceeds it: year into 0-9999, a leap-second nanosecond down to
    /// the last representable nanosecond), tagged only when labels are
    /// present.
    pub fn from_metric_kv(key: metrics::Key, sample: MetricSample) -> (r: Metric)
        ensures
            r.wf(),
            r.kind == MetricKind::Absolute,
            r.timestamp is Some,
            r.timestamp matches Some(t) ==> t.wf(),
            r.tags matches Some(t) ==> t.wf(),
            match sample {
                MetricSample::Counter(v) => r.value == (MetricValue::Counter {
                    value: dec_of_u64(v),
                }),
                MetricSample::Gauge(v) => r.value == (MetricValue::Gauge {
                    value: Decimal { mantissa: v, scale: 0u32 },
                }),
                MetricSample::Histogram(vs) => r.value matches MetricValue::Distribution {
                    values,
                    sample_rates,
                    statistic,
                } && statistic == StatisticKind::Histogram && values@.len() == vs@.len() && (
                forall|i: int|
                    0 <= i < values@.len() ==> values@[i] == dec_of_u64(vs@[i]))
                    && sample_rates@.len() == vs@.len() && (forall|i: int|
                    0 <= i < sample_rates@.len() ==> sample_rates@[i] == 1),
            },
    {
        let name = key_name(&key);
        let labels = key_labels(&key);
        let (year, month, day, hour, minute, second, nanosecond) = now_fields();
        let y: u32 = if year < 0 {
            0
        } else if year > 9999 {
            9999
        } else {
            year as u32
        };
        let ns: u32 = if nanosecond > 999999999 {
            999999999
        } else {
            nanosecond
        };
        let dim: u32 = crate::timestamp::days_in_month_of(y, month);
        let d: u32 = if day > dim {
            dim
        } else {
            day
        };
        let ts = Timestamp::new(y, month, d, hour, minute, second, ns);
        proof {
            assert(ts is Some);
        }
        from_parts(name, labels, sample, ts)
    }
}

} // verus!
