use vector_metrics::api::{topology_events_processed, IntervalError, MetricsSubscription};
use vector_metrics::capture::{from_parts, MetricSample};
use vector_metrics::decimal::Decimal;
use vector_metrics::metric::{Metric, MetricKind, MetricValue, StatisticKind};
use vector_metrics::registry::MetricRegistry;
use vector_metrics::statsd::{default_shutdown_timeout_secs, parse, parse_event, ParseError};
use vector_metrics::strset::StringSet;
use vector_metrics::tags::TagMap;
use vector_metrics::text::{chars_to_string, str_to_chars, write_list, write_word};
use vector_metrics::timestamp::Timestamp;

fn dec(mantissa: i64, scale: u32) -> Decimal {
    Decimal::new(mantissa, scale).unwrap()
}

fn counter(name: &str, value: Decimal, kind: MetricKind) -> Metric {
    Metric {
        name: name.to_owned(),
        timestamp: None,
        tags: None,
        kind,
        value: MetricValue::Counter { value },
    }
}

#[test]
fn decimal_addition_is_exact() {
    // 1.23 + 2.77 = 4, with the trailing zeros normalized away
    assert_eq!(dec(123, 2).checked_add(dec(277, 2)), Some(dec(4, 0)));
    // 0.1 + 0.02 = 0.12
    assert_eq!(dec(1, 1).checked_add(dec(2, 2)), Some(dec(12, 2)));
    // 1 + (-2) = -1
    assert_eq!(dec(1, 0).checked_add(dec(-2, 0)), Some(dec(-1, 0)));
    // cancellation down to zero
    assert_eq!(dec(5, 1).checked_add(dec(-5, 1)), Some(dec(0, 0)));
    // an unrepresentable sum is refused
    assert_eq!(dec(i64::MAX, 0).checked_add(dec(1, 0)), None);
}

#[test]
fn decimal_new_normalizes() {
    assert_eq!(Decimal::new(1230, 3).unwrap(), Decimal { mantissa: 123, scale: 2 });
    assert_eq!(Decimal::new(1000, 3).unwrap(), Decimal { mantissa: 1, scale: 0 });
    assert_eq!(Decimal::new(0, 7).unwrap(), Decimal { mantissa: 0, scale: 0 });
    assert_eq!(Decimal::new(5, 19), None);
}

#[test]
fn overflowing_counter_merge_is_dropped() {
    let mut big = counter("c", dec(i64::MAX, 0), MetricKind::Incremental);
    let delta = counter("c", dec(1, 0), MetricKind::Incremental);
    big.add(&delta);
    assert_eq!(big.value, MetricValue::Counter { value: dec(i64::MAX, 0) });
}

#[test]
fn timestamp_validation() {
    assert!(Timestamp::new(2020, 2, 29, 0, 0, 0, 0).is_some());
    assert_eq!(Timestamp::new(2019, 2, 29, 0, 0, 0, 0), None);
    assert_eq!(Timestamp::new(2020, 13, 1, 0, 0, 0, 0), None);
    assert_eq!(Timestamp::new(2020, 4, 31, 0, 0, 0, 0), None);
    assert_eq!(Timestamp::new(2020, 1, 1, 24, 0, 0, 0), None);
    assert_eq!(Timestamp::new(2020, 1, 1, 0, 0, 0, 1_000_000_000), None);
    assert_eq!(Timestamp::new(10000, 1, 1, 0, 0, 0, 0), None);
}

#[test]
fn timestamp_fixed_nanosecond_precision() {
    let whole = Metric {
        name: "t".into(),
        timestamp: Some(Timestamp::new(2020, 8, 12, 20, 23, 37, 0).unwrap()),
        tags: None,
        kind: MetricKind::Absolute,
        value: MetricValue::Counter { value: dec(1, 0) },
    };
    assert_eq!(whole.to_text(), "2020-08-12T20:23:37.000000000Z t{} = 1");
    let millis = Metric {
        timestamp: Some(Timestamp::new(2020, 8, 12, 20, 23, 37, 248_000_000).unwrap()),
        ..whole.clone()
    };
    assert_eq!(millis.to_text(), "2020-08-12T20:23:37.248000000Z t{} = 1");
    let nanos = Metric {
        timestamp: Some(Timestamp::new(2020, 8, 12, 20, 23, 37, 248_661_343).unwrap()),
        ..whole
    };
    assert_eq!(nanos.to_text(), "2020-08-12T20:23:37.248661343Z t{} = 1");
}

#[test]
fn parse_counter() {
    let m = parse("foo:1|c").unwrap();
    assert_eq!(m.name, "foo");
    assert_eq!(m.kind, MetricKind::Incremental);
    assert_eq!(m.value, MetricValue::Counter { value: dec(1, 0) });
    assert_eq!(m.tags, None);
    assert_eq!(m.timestamp, None);
}

#[test]
fn parse_sampled_counter() {
    let m = parse("bar:2|c|@0.1").unwrap();
    assert_eq!(m.value, MetricValue::Counter { value: dec(20, 0) });
}

#[test]
fn parse_gauge() {
    let absolute = parse("bar:42|g").unwrap();
    assert_eq!(absolute.kind, MetricKind::Absolute);
    assert_eq!(absolute.value, MetricValue::Gauge { value: dec(42, 0) });

    let delta = parse("bar:-3|g").unwrap();
    assert_eq!(delta.kind, MetricKind::Incremental);
    assert_eq!(delta.value, MetricValue::Gauge { value: dec(-3, 0) });
}

#[test]
fn parse_histogram_and_timer() {
    let h = parse("glork:3|h|@0.1").unwrap();
    assert_eq!(
        h.value,
        MetricValue::Distribution {
            values: vec![dec(3, 0)],
            sample_rates: vec![10],
            statistic: StatisticKind::Histogram,
        }
    );

    let ms = parse("milliglork:3000|ms|@0.1").unwrap();
    assert_eq!(
        ms.value,
        MetricValue::Distribution {
            values: vec![dec(3, 0)],
            sample_rates: vec![10],
            statistic: StatisticKind::Histogram,
        }
    );
}

#[test]
fn parse_set() {
    let m = parse("set:0|s").unwrap();
    let mut expected = StringSet::new();
    expected.insert("0".to_owned());
    assert_eq!(m.value, MetricValue::KeySet { values: expected });
}

#[test]
fn parse_tags_section() {
    let m = parse("foo:1|c|#a,b:b").unwrap();
    let mut expected = TagMap::new();
    expected.insert("a".to_owned(), "true".to_owned());
    expected.insert("b".to_owned(), "b".to_owned());
    assert_eq!(m.tags, Some(expected));
}

#[test]
fn parse_errors() {
    assert_eq!(parse("no separators"), Err(ParseError::MissingValue));
    assert_eq!(parse(":1|c"), Err(ParseError::EmptyName));
    assert_eq!(parse("foo:1"), Err(ParseError::MissingType));
    assert_eq!(parse("foo:abc|c"), Err(ParseError::InvalidNumber));
    assert_eq!(parse("foo:1|x"), Err(ParseError::UnknownType));
    assert_eq!(parse("foo:1|c|@0.3"), Err(ParseError::InvalidSampleRate));
    assert_eq!(parse("foo:1|c|@0"), Err(ParseError::InvalidSampleRate));
}

#[test]
fn parse_last_section_wins() {
    let m = parse("foo:2|c|@0.5|@0.1").unwrap();
    assert_eq!(m.value, MetricValue::Counter { value: dec(20, 0) });

    let m2 = parse("foo:1|c|#a:1|#b:2").unwrap();
    let mut expected = TagMap::new();
    expected.insert("b".to_owned(), "2".to_owned());
    assert_eq!(m2.tags, Some(expected));
}

#[test]
fn parse_event_drops_malformed_lines() {
    assert!(parse_event("foo:1|c").is_some());
    assert!(parse_event("garbage").is_none());
}

#[test]
fn shutdown_timeout_default() {
    assert_eq!(default_shutdown_timeout_secs(), 30);
}

#[test]
fn registry_merges_and_replaces() {
    let mut registry = MetricRegistry::new();
    registry.merge_in(counter("c", dec(1, 0), MetricKind::Incremental));
    registry.merge_in(counter("c", dec(2, 0), MetricKind::Incremental));
    let snap = registry.snapshot();
    assert_eq!(snap.len(), 1);
    assert_eq!(snap[0].value, MetricValue::Counter { value: dec(3, 0) });

    registry.merge_in(counter("c", dec(10, 0), MetricKind::Absolute));
    let snap = registry.snapshot();
    assert_eq!(snap.len(), 1);
    assert_eq!(snap[0].kind, MetricKind::Absolute);
    assert_eq!(snap[0].value, MetricValue::Counter { value: dec(10, 0) });

    registry.merge_in(counter("d", dec(5, 0), MetricKind::Incremental));
    assert_eq!(registry.snapshot().len(), 2);
}

#[test]
fn registry_keys_series_by_tags() {
    let mut registry = MetricRegistry::new();
    let mut t = TagMap::new();
    t.insert("component_name".to_owned(), "x".to_owned());
    let tagged = Metric { tags: Some(t), ..counter("c", dec(1, 0), MetricKind::Incremental) };
    registry.merge_in(tagged);
    registry.merge_in(counter("c", dec(2, 0), MetricKind::Incremental));
    assert_eq!(registry.snapshot().len(), 2);
}

#[test]
fn subscription_filters_by_name() {
    let batch = vec![
        counter("events_processed", dec(3, 0), MetricKind::Absolute),
        counter("other", dec(1, 0), MetricKind::Absolute),
        counter("events_processed", dec(4, 0), MetricKind::Absolute),
    ];
    let sub = MetricsSubscription::default();
    let events = sub.events_processed_metrics(1000, batch).unwrap();
    assert_eq!(events.len(), 2);
    assert_eq!(events[0].events_processed(), Some(dec(3, 0)));
    assert_eq!(events[1].events_processed(), Some(dec(4, 0)));
}

#[test]
fn subscription_rejects_bad_interval() {
    let sub = MetricsSubscription::default();
    assert_eq!(sub.uptime_metrics(50, vec![]).unwrap_err(), IntervalError::OutOfRange);
    assert_eq!(sub.metrics(60001, vec![]).unwrap_err(), IntervalError::OutOfRange);
    assert!(sub.bytes_processed_metrics(100, vec![]).is_ok());
    assert!(sub.metrics(60000, vec![]).is_ok());
}

#[test]
fn topology_lookup_finds_first_match() {
    let mut t = TagMap::new();
    t.insert("component_name".to_owned(), "in".to_owned());
    let tagged = Metric { tags: Some(t), ..counter("events_processed", dec(9, 0), MetricKind::Absolute) };
    let batch = vec![counter("events_processed", dec(1, 0), MetricKind::Absolute), tagged];
    let found = topology_events_processed(batch, "in".to_owned()).unwrap();
    assert_eq!(found.events_processed(), Some(dec(9, 0)));

    let batch = vec![counter("events_processed", dec(1, 0), MetricKind::Absolute)];
    assert!(topology_events_processed(batch, "in".to_owned()).is_none());
}

#[test]
fn from_parts_builds_absolute_snapshots() {
    let now = Timestamp::new(2021, 6, 1, 12, 0, 0, 0).unwrap();
    let m = from_parts("c".to_owned(), vec![], MetricSample::Counter(7), Some(now));
    assert_eq!(m.kind, MetricKind::Absolute);
    assert_eq!(m.timestamp, Some(now));
    assert_eq!(m.tags, None);
    assert_eq!(m.value, MetricValue::Counter { value: dec(7, 0) });

    let labels = vec![("component_name".to_owned(), "x".to_owned())];
    let m = from_parts("g".to_owned(), labels, MetricSample::Gauge(-4), Some(now));
    assert!(m.tags.is_some());
    assert!(m.tag_matches("component_name", "x"));
    assert_eq!(m.value, MetricValue::Gauge { value: dec(-4, 0) });

    let m = from_parts("h".to_owned(), vec![], MetricSample::Histogram(vec![2, 5]), Some(now));
    assert_eq!(
        m.value,
        MetricValue::Distribution {
            values: vec![dec(2, 0), dec(5, 0)],
            sample_rates: vec![1, 1],
            statistic: StatisticKind::Histogram,
        }
    );
}

#[test]
fn from_metric_kv_reads_the_key() {
    let key = metrics::Key::from_parts("events_processed", vec![metrics::Label::new(
        "component_name",
        "x",
    )]);
    let m = Metric::from_metric_kv(key, MetricSample::Counter(3));
    assert_eq!(m.name, "events_processed");
    assert_eq!(m.kind, MetricKind::Absolute);
    assert!(m.timestamp.is_some());
    assert!(m.tag_matches("component_name", "x"));
    assert_eq!(m.value, MetricValue::Counter { value: dec(3, 0) });
}

#[test]
fn set_union_collapses_duplicates() {
    let mut a = StringSet::new();
    a.insert("old".to_owned());
    a.insert("both".to_owned());
    let mut b = StringSet::new();
    b.insert("new".to_owned());
    b.insert("both".to_owned());
    a.union_with(&b);
    let mut expected = StringSet::new();
    expected.insert("both".to_owned());
    expected.insert("new".to_owned());
    expected.insert("old".to_owned());
    assert_eq!(a, expected);
}

#[test]
fn words_and_lists_render() {
    let mut out: Vec<char> = Vec::new();
    write_word(&mut out, &str_to_chars("plain_word1"));
    write_word(&mut out, &str_to_chars("two word"));
    assert_eq!(chars_to_string(&out), "plain_word1\"two word\"");

    let mut joined: Vec<char> = Vec::new();
    let items = vec![str_to_chars("a"), str_to_chars("b"), str_to_chars("c")];
    write_list(&mut joined, ", ", &items);
    assert_eq!(chars_to_string(&joined), "a, b, c");
}

#[test]
fn quoting_escapes_specials() {
    let mut t = TagMap::new();
    t.insert("k".to_owned(), "a\"b\\c\nd".to_owned());
    let m = Metric {
        name: "m".into(),
        timestamp: None,
        tags: Some(t),
        kind: MetricKind::Absolute,
        value: MetricValue::Counter { value: dec(1, 0) },
    };
    assert_eq!(m.to_text(), "m{k=\"a\\\"b\\\\c\\nd\"} = 1");

    let mut bell = TagMap::new();
    bell.insert("k".to_owned(), "\u{7}".to_owned());
    let m2 = Metric {
        name: "m".into(),
        timestamp: None,
        tags: Some(bell),
        kind: MetricKind::Absolute,
        value: MetricValue::Counter { value: dec(1, 0) },
    };
    assert_eq!(m2.to_text(), "m{k=\"\\u{7}\"} = 1");
}

#[test]
fn decimal_rendering_edges() {
    let render = |d: Decimal| {
        Metric {
            name: "n".into(),
            timestamp: None,
            tags: None,
            kind: MetricKind::Absolute,
            value: MetricValue::Counter { value: d },
        }
        .to_text()
    };
    assert_eq!(render(dec(5, 3)), "n{} = 0.005");
    assert_eq!(render(dec(-25, 2)), "n{} = -0.25");
    assert_eq!(render(dec(0, 0)), "n{} = 0");
    assert_eq!(render(dec(105, 1)), "n{} = 10.5");
}

#[test]
fn tag_map_insert_replaces() {
    let mut t = TagMap::new();
    t.insert("k".to_owned(), "v1".to_owned());
    t.insert("k".to_owned(), "v2".to_owned());
    assert_eq!(t.len(), 1);
    assert_eq!(t.get("k"), Some(&"v2".to_owned()));
    assert_eq!(t.get("missing"), None);
}
