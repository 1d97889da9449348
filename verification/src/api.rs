use vstd::prelude::*;
use crate::metric::{Metric, MetricValue};
use crate::decimal::Decimal;
use crate::timestamp::Timestamp;

verus! {

/// Smallest polling interval a subscription accepts, in milliseconds.
pub const MIN_INTERVAL_MS: i32 = 100;

/// Largest polling interval a subscription accepts, in milliseconds.
pub const MAX_INTERVAL_MS: i32 = 60000;

/// An interval outside the configured bounds is rejected at the query
/// boundary, before any ticking begins.
#[derive(Clone, Copy, Debug, PartialEq, Eq, Structural)]
pub enum IntervalError {
    OutOfRange,
}

/// How long the instance has been running: the series named
/// `uptime_seconds`, a gauge.
#[derive(Clone, Debug, PartialEq)]
pub struct Uptime {
    pub metric: Metric,
}

impl Uptime {
    pub fn new(metric: Metric) -> (r: Uptime)
        ensures
            r.metric == metric,
    {
        Uptime { metric }
    }

    pub fn timestamp(&self) -> (r: Option<Timestamp>)
        ensures
            r == self.metric.timestamp,
    {
        self.metric.timestamp
    }

    /// The gauge level, when the payload is a gauge.
    pub fn seconds(&self) -> (r: Option<Decimal>)
        ensures
            r == match self.metric.value {
                MetricValue::Gauge { value } => Some(value),
                _ => None,
            },
    {
        match &self.metric.value {
            MetricValue::Gauge { value } => Some(*value),
            _ => None,
        }
    }
}

/// Events the topology has processed: the series named `events_processed`,
/// a counter.
#[derive(Clone, Debug, PartialEq)]
pub struct EventsProcessed {
    pub metric: Metric,
}

impl EventsProcessed {
    pub fn new(metric: Metric) -> (r: EventsProcessed)
        ensures
            r.metric == metric,
    {
        EventsProcessed { metric }
    }

    pub fn timestamp(&self) -> (r: Option<Timestamp>)
        ensures
            r == self.metric.timestamp,
    {
        self.metric.timestamp
    }

    /// The counter total, when the payload is a counter.
    pub fn events_processed(&self) -> (r: Option<Decimal>)
        ensures
            r == match self.metric.value {
                MetricValue::Counter { value } => Some(value),
                _ => None,
            },
    {
        match &self.metric.value {
            MetricValue::Counter { value } => Some(*value),
            _ => None,
        }
    }
}

/// Bytes the topology has processed: the series named `bytes_processed`,
/// a counter.
#[derive(Clone, Debug, PartialEq)]
pub struct BytesProcessed {
    pub metric: Metric,
}

impl BytesProcessed {
    pub fn new(metric: Metric) -> (r: BytesProcessed)
        ensures
            r.metric == metric,
    {
        BytesProcessed { metric }
    }

    pub fn timestamp(&self) -> (r: Option<Timestamp>)
        ensures
            r == self.metric.timestamp,
    {
        self.metric.timestamp
    }

    /// The counter total, when the payload is a counter.
    pub fn bytes_processed(&self) -> (r: Option<Decimal>)
        ensures
            r == match self.metric.value {
                MetricValue::Counter { value } => Some(value),
                _ => None,
            },
    {
        match &self.metric.value {
            MetricValue::Counter { value } => Some(*value),
            _ => None,
        }
    }
}

/// A typed metric from the subscription stream.
#[derive(Clone, Debug, PartialEq)]
pub enum MetricType {
    Uptime(Uptime),
    EventsProcessed(EventsProcessed),
    BytesProcessed(BytesProcessed),
}

impl MetricType {
    pub fn timestamp(&self) -> (r: Option<Timestamp>)
        ensures
            r == match *self {
                MetricType::Uptime(ref u) => u.metric.timestamp,
                MetricType::EventsProcessed(ref e) => e.metric.timestamp,
                MetricType::BytesProcessed(ref b) => b.metric.timestamp,
            },
    {
        match self {
            MetricType::Uptime(u) => u.metric.timestamp,
            MetricType::EventsProcessed(e) => e.metric.timestamp,
            MetricType::BytesProcessed(b) => b.metric.timestamp,
        }
    }
}

/// The metrics of one snapshot batch that carry the given name, in
/// snapshot order.
pub open spec fn filter_named(s: Seq<Metric>, name: Seq<char>) -> Seq<Metric>
    decreases s.len(),
{
    if s.len() == 0 {
        Seq::empty()
    } else {
        let rest = filter_named(s.drop_last(), name);
        if s.last().name@ == name {
            rest.push(s.last())
        } else {
            rest
        }
    }
}

/// The typed wrappers of one snapshot batch, in snapshot order: one for
/// each metric named after one of the three streamed series.
pub open spec fn type_for(m: Metric) -> Option<MetricType> {
    if m.name@ == ("uptime_seconds")@ {
        Some(MetricType::Uptime(Uptime { metric: m }))
    } else if m.name@ == ("events_processed")@ {
        Some(MetricType::EventsProcessed(EventsProcessed { metric: m }))
    } else if m.name@ == ("bytes_processed")@ {
        Some(MetricType::BytesProcessed(BytesProcessed { metric: m }))
    } else {
        None
    }
}

pub open spec fn filter_typed(s: Seq<Metric>) -> Seq<MetricType>
    decreases s.len(),
{
    if s.len() == 0 {
        Seq::empty()
    } else {
        let rest = filter_typed(s.drop_last());
        match type_for(s.last()) {
            Some(t) => rest.push(t),
            None => rest,
        }
    }
}

/// Whether an interval lies in the accepted polling range.
pub open spec fn interval_ok(interval: i32) -> bool {
    MIN_INTERVAL_MS <= interval <= MAX_INTERVAL_MS
}

/// Pull the metrics with the given name out of a snapshot batch.
fn split_named(snapshot: Vec<Metric>, name: &str) -> (r: Vec<Metric>)
    ensures
        r@ == filter_named(snapshot@, name@),
{
    let ghost s0 = snapshot@;
    let mut rest = snapshot;
    let nc = crate::text::str_to_chars(name);
    let mut r: Vec<Metric> = Vec::new();
    let ghost mut i: int = 0;
    proof {
        assert(s0.take(0) =~= Seq::<Metric>::empty());
    }
    while rest.len() > 0
        invariant
            nc@ == name@,
            0 <= i && i + rest@.len() == s0.len(),
            rest@ == s0.skip(i),
            r@ == filter_named(s0.take(i), name@),
        decreases rest@.len(),
    {
        let m = rest.remove(0);
        proof {
            assert(m == s0[i]);
            assert(rest@ =~= s0.skip(i + 1));
            assert(s0.take(i + 1).drop_last() =~= s0.take(i));
            assert(s0.take(i + 1).last() == s0[i as int]);
        }
        let mc = crate::text::str_to_chars(m.name.as_str());
        if crate::text::chars_eq(&mc, &nc) {
            r.push(m);
        }
        proof {
            i = i + 1;
        }
    }
    proof {
        assert(s0.take(s0.len() as int) =~= s0);
    }
    r
}

/// The streaming query surface: on each tick of an external timer the
/// application takes a registry snapshot and hands it here; these methods
/// do the per-tick filtering into typed sub-streams. The polling interval
/// is validated once, before any ticking begins.
#[derive(Default)]
pub struct MetricsSubscription;

impl MetricsSubscription {
    /// Uptime metrics for one tick of the stream.
    pub fn uptime_metrics(&self, interval: i32, snapshot: Vec<Metric>) -> (r: Result<
        Vec<Uptime>,
        IntervalError,
    >)
        ensures
            !interval_ok(interval) <==> r is Err,
            r matches Err(e) ==> e == IntervalError::OutOfRange,
            r matches Ok(v) ==> v@.map_values(|u: Uptime| u.metric) == filter_named(
                snapshot@,
                ("uptime_seconds")@,
            ),
    {
        if interval < MIN_INTERVAL_MS || interval > MAX_INTERVAL_MS {
            return Err(IntervalError::OutOfRange);
        }
        let named = split_named(snapshot, "uptime_seconds");
        let ghost n0 = named@;
        let mut rest = named;
        let mut out: Vec<Uptime> = Vec::new();
        let ghost mut i: int = 0;
        while rest.len() > 0
            invariant
                0 <= i && i + rest@.len() == n0.len(),
                rest@ == n0.skip(i),
                out@.len() == i,
                forall|j: int| 0 <= j < i ==> out@[j].metric == n0[j],
            decreases rest@.len(),
        {
            let m = rest.remove(0);
            proof {
                assert(m == n0[i]);
                assert(rest@ =~= n0.skip(i + 1));
            }
            out.push(Uptime { metric: m });
            proof {
                i = i + 1;
            }
        }
        proof {
            assert(out@.map_values(|u: Uptime| u.metric) =~= n0);
        }
        Ok(out)
    }

    /// Events-processed metrics for one tick of the stream.
    pub fn events_processed_metrics(&self, interval: i32, snapshot: Vec<Metric>) -> (r: Result<
        Vec<EventsProcessed>,
        IntervalError,
    >)
        ensures
            !interval_ok(interval) <==> r is Err,
            r matches Err(e) ==> e == IntervalError::OutOfRange,
            r matches Ok(v) ==> v@.map_values(|u: EventsProcessed| u.metric) == filter_named(
                snapshot@,
                ("events_processed")@,
            ),
    {
        if interval < MIN_INTERVAL_MS || interval > MAX_INTERVAL_MS {
            return Err(IntervalError::OutOfRange);
        }
        let named = split_named(snapshot, "events_processed");
        let ghost n0 = named@;
        let mut rest = named;
        let mut out: Vec<EventsProcessed> = Vec::new();
        let ghost mut i: int = 0;
        while rest.len() > 0
            invariant
                0 <= i && i + rest@.len() == n0.len(),
                rest@ == n0.skip(i),
                out@.len() == i,
                forall|j: int| 0 <= j < i ==> out@[j].metric == n0[j],
            decreases rest@.len(),
        {
            let m = rest.remove(0);
            proof {
                assert(m == n0[i]);
                assert(rest@ =~= n0.skip(i + 1));
            }
            out.push(EventsProcessed { metric: m });
            proof {
                i = i + 1;
            }
        }
        proof {
            assert(out@.map_values(|u: EventsProcessed| u.metric) =~= n0);
        }
        Ok(out)
    }

    /// Bytes-processed metrics for one tick of the stream.
    pub fn bytes_processed_metrics(&self, interval: i32, snapshot: Vec<Metric>) -> (r: Result<
        Vec<BytesProcessed>,
        IntervalError,
    >)
        ensures
            !interval_ok(interval) <==> r is Err,
            r matches Err(e) ==> e == IntervalError::OutOfRange,
            r matches Ok(v) ==> v@.map_values(|u: BytesProcessed| u.metric) == filter_named(
                snapshot@,
                ("bytes_processed")@,
            ),
    {
        if interval < MIN_INTERVAL_MS || interval > MAX_INTERVAL_MS {
            return Err(IntervalError::OutOfRange);
        }
        let named = split_named(snapshot, "bytes_processed");
        let ghost n0 = named@;
        let mut rest = named;
        let mut out: Vec<BytesProcessed> = Vec::new();
        let ghost mut i: int = 0;
        while rest.len() > 0
            invariant
                0 <= i && i + rest@.len() == n0.len(),
                rest@ == n0.skip(i),
                out@.len() == i,
                forall|j: int| 0 <= j < i ==> out@[j].metric == n0[j],
            decreases rest@.len(),
        {
            let m = rest.remove(0);
            proof {
                assert(m == n0[i]);
                assert(rest@ =~= n0.skip(i + 1));
            }
            out.push(BytesProcessed { metric: m });
            proof {
                i = i + 1;
            }
        }
        proof {
            assert(out@.map_values(|u: BytesProcessed| u.metric) =~= n0);
        }
        Ok(out)
    }

    /// All streamed metrics for one tick, each wrapped in its typed form.
    pub fn metrics(&self, interval: i32, snapshot: Vec<Metric>) -> (r: Result<
        Vec<MetricType>,
        IntervalError,
    >)
        ensures
            !interval_ok(interval) <==> r is Err,
            r matches Err(e) ==> e == IntervalError::OutOfRange,
            r matches Ok(v) ==> v@ == filter_typed(snapshot@),
    {
        if interval < MIN_INTERVAL_MS || interval > MAX_INTERVAL_MS {
            return Err(IntervalError::OutOfRange);
        }
        let ghost s0 = snapshot@;
        let mut rest = snapshot;
        let mut out: Vec<MetricType> = Vec::new();
        let ghost mut i: int = 0;
        proof {
            assert(s0.take(0) =~= Seq::<Metric>::empty());
        }
        while rest.len() > 0
            invariant
                0 <= i && i + rest@.len() == s0.len(),
                rest@ == s0.skip(i),
                out@ == filter_typed(s0.take(i)),
            decreases rest@.len(),
        {
            let m = rest.remove(0);
            proof {
                assert(m == s0[i]);
                assert(rest@ =~= s0.skip(i + 1));
                assert(s0.take(i + 1).drop_last() =~= s0.take(i));
                assert(s0.take(i + 1).last() == s0[i as int]);
            }
            let mc = crate::text::str_to_chars(m.name.as_str());
            let un = crate::text::str_to_chars("uptime_seconds");
            let en = crate::text::str_to_chars("events_processed");
            let bn = crate::text::str_to_chars("bytes_processed");
            if crate::text::chars_eq(&mc, &un) {
                out.push(MetricType::Uptime(Uptime { metric: m }));
            } else if crate::text::chars_eq(&mc, &en) {
                out.push(MetricType::EventsProcessed(EventsProcessed { metric: m }));
            } else if crate::text::chars_eq(&mc, &bn) {
                out.push(MetricType::BytesProcessed(BytesProcessed { metric: m }));
            }
            proof {
                i = i + 1;
            }
        }
        proof {
            assert(s0.take(s0.len() as int) =~= s0);
        }
        Ok(out)
    }
}

/// The host-metrics query surface of the API. The host statistics
/// themselves come from outside collectors; this type only anchors the
/// query root.
#[derive(Default)]
pub struct MetricsQuery;

/// Whether `m` is the events-processed series of the component named
/// `topo`: right metric name, and a `component_name` tag reading `topo`.
pub open spec fn topo_match(m: Metric, topo: Seq<char>) -> bool {
    &&& m.name@ == ("events_processed")@
    &&& match m.tags {
        Some(t) => t@.contains_key(("component_name")@) && t@[("component_name")@] == topo,
        None => false,
    }
}

/// The index of the first snapshot entry matching, or -1.
pub open spec fn first_topo_match(s: Seq<Metric>, topo: Seq<char>) -> int
    decreases s.len(),
{
    if s.len() == 0 {
        -1
    } else if topo_match(s[0], topo) {
        0
    } else {
        let r = first_topo_match(s.drop_first(), topo);
        if r == -1 {
            -1
        } else {
            r + 1
        }
    }
}

proof fn lemma_first_topo_match_at(s: Seq<Metric>, topo: Seq<char>, i: int)
    requires
        0 <= i < s.len(),
        topo_match(s[i], topo),
        forall|j: int| 0 <= j < i ==> !topo_match(s[j], topo),
    ensures
        first_topo_match(s, topo) == i,
    decreases i,
{
    if i > 0 {
        let tail = s.drop_first();
        assert(tail[i - 1] == s[i]);
        assert forall|j: int| 0 <= j < i - 1 implies !topo_match(tail[j], topo) by {
            assert(tail[j] == s[j + 1]);
        }
        lemma_first_topo_match_at(tail, topo, i - 1);
    }
}

proof fn lemma_first_topo_match_none(s: Seq<Metric>, topo: Seq<char>)
    requires
        forall|j: int| 0 <= j < s.len() ==> !topo_match(s[j], topo),
    ensures
        first_topo_match(s, topo) == -1,
    decreases s.len(),
{
    if s.len() > 0 {
        let tail = s.drop_first();
        assert forall|j: int| 0 <= j < tail.len() implies !topo_match(tail[j], topo) by {
            assert(tail[j] == s[j + 1]);
        }
        lemma_first_topo_match_none(tail, topo);
    }
}

/// The events processed by the topology component of the given name: the
/// first metric of a snapshot batch that is the `events_processed` series
/// tagged `component_name=<topology_name>`, or nothing.
pub fn topology_events_processed(snapshot: Vec<Metric>, topology_name: String) -> (r: Option<
    EventsProcessed,
>)
    requires
        forall|i: int| 0 <= i < snapshot@.len() ==> snapshot@[i].wf(),
    ensures
        ({
            let idx = first_topo_match(snapshot@, topology_name@);
            if idx == -1 {
                r is None
            } else {
                r matches Some(e) && e.metric == snapshot@[idx]
            }
        }),
{
    let mut i: usize = 0;
    let mut found: bool = false;
    loop
        invariant_except_break
            !found,
        invariant
            forall|k: int| 0 <= k < snapshot@.len() ==> snapshot@[k].wf(),
            i <= snapshot@.len(),
            forall|j: int| 0 <= j < i ==> !topo_match(snapshot@[j], topology_name@),
        ensures
            i <= snapshot@.len(),
            forall|j: int| 0 <= j < i ==> !topo_match(snapshot@[j], topology_name@),
            found ==> i < snapshot@.len() && topo_match(snapshot@[i as int], topology_name@),
            !found ==> i == snapshot@.len(),
        decreases snapshot@.len() - i,
    {
        if i >= snapshot.len() {
            break ;
        }
        let mc = crate::text::str_to_chars(snapshot[i].name.as_str());
        let en = crate::text::str_to_chars("events_processed");
        if crate::text::chars_eq(&mc, &en) && snapshot[i].tag_matches(
            "component_name",
            topology_name.as_str(),
        ) {
            found = true;
            break ;
        }
        i = i + 1;
    }
    if found {
        proof {
            lemma_first_topo_match_at(snapshot@, topology_name@, i as int);
        }
        let mut s = snapshot;
        let m = s.remove(i);
        Some(EventsProcessed { metric: m })
    } else {
        proof {
            lemma_first_topo_match_none(snapshot@, topology_name@);
        }
        None
    }
}

} // verus!
