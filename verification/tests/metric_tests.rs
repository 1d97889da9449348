use vector_metrics::decimal::Decimal;
use vector_metrics::metric::{Metric, MetricKind, MetricValue};
use vector_metrics::metric::StatisticKind;
use vector_metrics::strset::StringSet;
use vector_metrics::tags::TagMap;
use vector_metrics::timestamp::Timestamp;

fn dec(mantissa: i64, scale: u32) -> Decimal {
    Decimal::new(mantissa, scale).unwrap()
}

fn ts() -> Timestamp {
    Timestamp::new(2018, 11, 14, 8, 9, 10, 11).unwrap()
}

fn tags() -> TagMap {
    let mut t = TagMap::new();
    t.insert("normal_tag".to_owned(), "value".to_owned());
    t.insert("true_tag".to_owned(), "true".to_owned());
    t.insert("empty_tag".to_owned(), "".to_owned());
    t
}

fn set_of(items: &[&str]) -> StringSet {
    let mut s = StringSet::new();
    for item in items {
        s.insert((*item).to_owned());
    }
    s
}

#[test]
fn merge_counters() {
    let mut counter = Metric {
        name: "counter".into(),
        timestamp: None,
        tags: None,
        kind: MetricKind::Incremental,
        value: MetricValue::Counter { value: dec(10, 1) },
    };

    let delta = Metric {
        name: "counter".into(),
        timestamp: Some(ts()),
        tags: Some(tags()),
        kind: MetricKind::Incremental,
        value: MetricValue::Counter { value: dec(20, 1) },
    };

    counter.add(&delta);
    assert_eq!(
        counter,
        Metric {
            name: "counter".into(),
            timestamp: None,
            tags: None,
            kind: MetricKind::Incremental,
            value: MetricValue::Counter { value: dec(30, 1) },
        }
    )
}

#[test]
fn merge_gauges() {
    let mut gauge = Metric {
        name: "gauge".into(),
        timestamp: None,
        tags: None,
        kind: MetricKind::Incremental,
        value: MetricValue::Gauge { value: dec(10, 1) },
    };

    let delta = Metric {
        name: "gauge".into(),
        timestamp: Some(ts()),
        tags: Some(tags()),
        kind: MetricKind::Incremental,
        value: MetricValue::Gauge { value: dec(-20, 1) },
    };

    gauge.add(&delta);
    assert_eq!(
        gauge,
        Metric {
            name: "gauge".into(),
            timestamp: None,
            tags: None,
            kind: MetricKind::Incremental,
            value: MetricValue::Gauge { value: dec(-10, 1) },
        }
    )
}

#[test]
fn merge_sets() {
    let mut set = Metric {
        name: "set".into(),
        timestamp: None,
        tags: None,
        kind: MetricKind::Incremental,
        value: MetricValue::KeySet { values: set_of(&["old"]) },
    };

    let delta = Metric {
        name: "set".into(),
        timestamp: Some(ts()),
        tags: Some(tags()),
        kind: MetricKind::Incremental,
        value: MetricValue::KeySet { values: set_of(&["new"]) },
    };

    set.add(&delta);
    assert_eq!(
        set,
        Metric {
            name: "set".into(),
            timestamp: None,
            tags: None,
            kind: MetricKind::Incremental,
            value: MetricValue::KeySet { values: set_of(&["old", "new"]) },
        }
    )
}

#[test]
fn merge_histograms() {
    let mut dist = Metric {
        name: "hist".into(),
        timestamp: None,
        tags: None,
        kind: MetricKind::Incremental,
        value: MetricValue::Distribution {
            values: vec![dec(10, 1)],
            sample_rates: vec![10],
            statistic: StatisticKind::Histogram,
        },
    };

    let delta = Metric {
        name: "hist".into(),
        timestamp: Some(ts()),
        tags: Some(tags()),
        kind: MetricKind::Incremental,
        value: MetricValue::Distribution {
            values: vec![dec(10, 1)],
            sample_rates: vec![20],
            statistic: StatisticKind::Histogram,
        },
    };

    dist.add(&delta);
    assert_eq!(
        dist,
        Metric {
            name: "hist".into(),
            timestamp: None,
            tags: None,
            kind: MetricKind::Incremental,
            value: MetricValue::Distribution {
                values: vec![dec(10, 1), dec(10, 1)],
                sample_rates: vec![10, 20],
                statistic: StatisticKind::Histogram,
            },
        }
    )
}

#[test]
fn display() {
    assert_eq!(
        Metric {
            name: "one".into(),
            timestamp: None,
            tags: Some(tags()),
            kind: MetricKind::Absolute,
            value: MetricValue::Counter { value: dec(123, 2) },
        }
        .to_text(),
        r#"one{empty_tag="",normal_tag="value",true_tag="true"} = 1.23"#
    );

    assert_eq!(
        Metric {
            name: "two word".into(),
            timestamp: Some(ts()),
            tags: None,
            kind: MetricKind::Incremental,
            value: MetricValue::Gauge { value: dec(20, 1) },
        }
        .to_text(),
        r#"2018-11-14T08:09:10.000000011Z "two word"{} + 2"#
    );

    assert_eq!(
        Metric {
            name: "three".into(),
            timestamp: None,
            tags: None,
            kind: MetricKind::Absolute,
            value: MetricValue::KeySet {
                values: set_of(&["v1", "v2_two", "thrəë", "four=4"]),
            },
        }
        .to_text(),
        r#"three{} = "four=4" "thrəë" v1 v2_two"#
    );

    assert_eq!(
        Metric {
            name: "four".into(),
            timestamp: None,
            tags: None,
            kind: MetricKind::Absolute,
            value: MetricValue::Distribution {
                values: vec![dec(10, 1), dec(20, 1)],
                sample_rates: vec![3, 4],
                statistic: StatisticKind::Histogram,
            },
        }
        .to_text(),
        r#"four{} = histogram 3@1 4@2"#
    );

    assert_eq!(
        Metric {
            name: "five".into(),
            timestamp: None,
            tags: None,
            kind: MetricKind::Absolute,
            value: MetricValue::AggregatedHistogram {
                buckets: vec![dec(51, 0), dec(52, 0)],
                counts: vec![53, 54],
                count: 107,
                sum: dec(1030, 1),
            },
        }
        .to_text(),
        r#"five{} = count=107 sum=103 53@51 54@52"#
    );

    assert_eq!(
        Metric {
            name: "six".into(),
            timestamp: None,
            tags: None,
            kind: MetricKind::Absolute,
            value: MetricValue::AggregatedSummary {
                quantiles: vec![dec(10, 1), dec(20, 1)],
                values: vec![dec(63, 0), dec(64, 0)],
                count: 2,
                sum: dec(127, 0),
            },
        }
        .to_text(),
        r#"six{} = count=2 sum=127 1@63 2@64"#
    );
}

#[test]
fn absolute_other_is_no_op() {
    let mut counter = Metric {
        name: "counter".into(),
        timestamp: None,
        tags: None,
        kind: MetricKind::Incremental,
        value: MetricValue::Counter { value: dec(1, 0) },
    };
    let absolute = Metric {
        name: "counter".into(),
        timestamp: None,
        tags: None,
        kind: MetricKind::Absolute,
        value: MetricValue::Counter { value: dec(2, 0) },
    };
    counter.add(&absolute);
    assert_eq!(counter.value, MetricValue::Counter { value: dec(1, 0) });
}

#[test]
fn mismatched_variants_are_dropped() {
    let mut counter = Metric {
        name: "m".into(),
        timestamp: None,
        tags: None,
        kind: MetricKind::Incremental,
        value: MetricValue::Counter { value: dec(1, 0) },
    };
    let gauge = Metric {
        name: "m".into(),
        timestamp: None,
        tags: None,
        kind: MetricKind::Incremental,
        value: MetricValue::Gauge { value: dec(2, 0) },
    };
    counter.add(&gauge);
    assert_eq!(counter.value, MetricValue::Counter { value: dec(1, 0) });
}

#[test]
fn histogram_merge_is_shape_guarded() {
    let mut hist = Metric {
        name: "h".into(),
        timestamp: None,
        tags: None,
        kind: MetricKind::Incremental,
        value: MetricValue::AggregatedHistogram {
            buckets: vec![dec(1, 0), dec(2, 0)],
            counts: vec![1, 2],
            count: 3,
            sum: dec(4, 0),
        },
    };
    let same_shape = Metric {
        name: "h".into(),
        timestamp: None,
        tags: None,
        kind: MetricKind::Incremental,
        value: MetricValue::AggregatedHistogram {
            buckets: vec![dec(1, 0), dec(2, 0)],
            counts: vec![10, 20],
            count: 30,
            sum: dec(40, 0),
        },
    };
    hist.add(&same_shape);
    assert_eq!(
        hist.value,
        MetricValue::AggregatedHistogram {
            buckets: vec![dec(1, 0), dec(2, 0)],
            counts: vec![11, 22],
            count: 33,
            sum: dec(44, 0),
        }
    );

    let other_shape = Metric {
        name: "h".into(),
        timestamp: None,
        tags: None,
        kind: MetricKind::Incremental,
        value: MetricValue::AggregatedHistogram {
            buckets: vec![dec(1, 0), dec(3, 0)],
            counts: vec![5, 5],
            count: 10,
            sum: dec(10, 0),
        },
    };
    hist.add(&other_shape);
    assert_eq!(
        hist.value,
        MetricValue::AggregatedHistogram {
            buckets: vec![dec(1, 0), dec(2, 0)],
            counts: vec![11, 22],
            count: 33,
            sum: dec(44, 0),
        }
    );
}

#[test]
fn reset_preserves_shape() {
    let mut hist = Metric {
        name: "h".into(),
        timestamp: None,
        tags: None,
        kind: MetricKind::Absolute,
        value: MetricValue::AggregatedHistogram {
            buckets: vec![dec(51, 0), dec(52, 0)],
            counts: vec![53, 54],
            count: 107,
            sum: dec(1030, 1),
        },
    };
    hist.reset();
    assert_eq!(
        hist.value,
        MetricValue::AggregatedHistogram {
            buckets: vec![dec(51, 0), dec(52, 0)],
            counts: vec![0, 0],
            count: 0,
            sum: dec(0, 0),
        }
    );

    let mut summary = Metric {
        name: "s".into(),
        timestamp: None,
        tags: None,
        kind: MetricKind::Absolute,
        value: MetricValue::AggregatedSummary {
            quantiles: vec![dec(5, 1), dec(99, 2)],
            values: vec![dec(1, 0), dec(2, 0)],
            count: 9,
            sum: dec(3, 0),
        },
    };
    summary.reset();
    assert_eq!(
        summary.value,
        MetricValue::AggregatedSummary {
            quantiles: vec![dec(5, 1), dec(99, 2)],
            values: vec![dec(0, 0), dec(0, 0)],
            count: 0,
            sum: dec(0, 0),
        }
    );

    let mut counter = Metric {
        name: "c".into(),
        timestamp: None,
        tags: None,
        kind: MetricKind::Incremental,
        value: MetricValue::Counter { value: dec(7, 0) },
    };
    counter.reset();
    assert_eq!(counter.value, MetricValue::Counter { value: dec(0, 0) });

    let mut set = Metric {
        name: "set".into(),
        timestamp: None,
        tags: None,
        kind: MetricKind::Incremental,
        value: MetricValue::KeySet { values: set_of(&["a", "b"]) },
    };
    set.reset();
    assert_eq!(set.value, MetricValue::KeySet { values: StringSet::new() });

    let mut dist = Metric {
        name: "d".into(),
        timestamp: None,
        tags: None,
        kind: MetricKind::Incremental,
        value: MetricValue::Distribution {
            values: vec![dec(1, 0)],
            sample_rates: vec![10],
            statistic: StatisticKind::Summary,
        },
    };
    dist.reset();
    assert_eq!(
        dist.value,
        MetricValue::Distribution {
            values: vec![],
            sample_rates: vec![],
            statistic: StatisticKind::Summary,
        }
    );
}

#[test]
fn to_absolute_keeps_data() {
    let m = Metric {
        name: "counter".into(),
        timestamp: Some(ts()),
        tags: Some(tags()),
        kind: MetricKind::Incremental,
        value: MetricValue::Counter { value: dec(5, 0) },
    };
    let a = m.to_absolute();
    assert_eq!(a.kind, MetricKind::Absolute);
    assert_eq!(a.name, m.name);
    assert_eq!(a.timestamp, m.timestamp);
    assert_eq!(a.tags, m.tags);
    assert_eq!(a.value, m.value);
}

#[test]
fn tag_matches_finds_exact_pair() {
    let m = Metric {
        name: "m".into(),
        timestamp: None,
        tags: Some(tags()),
        kind: MetricKind::Absolute,
        value: MetricValue::Counter { value: dec(1, 0) },
    };
    assert!(m.tag_matches("normal_tag", "value"));
    assert!(!m.tag_matches("normal_tag", "other"));
    assert!(!m.tag_matches("missing", "value"));
    let untagged = Metric { tags: None, ..m };
    assert!(!untagged.tag_matches("normal_tag", "value"));
}

#[test]
fn formatting_is_deterministic_and_sorted() {
    let mut forward = TagMap::new();
    forward.insert("a".to_owned(), "1".to_owned());
    forward.insert("b".to_owned(), "2".to_owned());
    let mut backward = TagMap::new();
    backward.insert("b".to_owned(), "2".to_owned());
    backward.insert("a".to_owned(), "1".to_owned());
    let m1 = Metric {
        name: "m".into(),
        timestamp: None,
        tags: Some(forward),
        kind: MetricKind::Absolute,
        value: MetricValue::Counter { value: dec(1, 0) },
    };
    let m2 = Metric {
        name: "m".into(),
        timestamp: None,
        tags: Some(backward),
        kind: MetricKind::Absolute,
        value: MetricValue::Counter { value: dec(1, 0) },
    };
    assert_eq!(m1.to_text(), m2.to_text());
    assert_eq!(m1.to_text(), m1.to_text());
    assert_eq!(m1.to_text(), r#"m{a="1",b="2"} = 1"#);
}
