use vstd::prelude::*;
use crate::decimal::Decimal;
use crate::metric::{Metric, MetricKind, MetricValue, StatisticKind};
use crate::text::{word_repr, quoted, join_with, dec_digits, zero_chars, write_word, write_list,
    push_u128_digits, push_zeros, push_chars, push_escaped, push_str_chars, str_to_chars,
    chars_to_string};
use crate::timestamp::{fmt_timestamp, push_timestamp};

verus! {

/// The digits of the magnitude of a decimal, with the point inserted:
/// `scale` zero means a bare integer; otherwise the last `scale` digits are
/// the fraction, zero-padded on the left when the magnitude is small.
pub open spec fn fmt_dec_mag(n: nat, s: nat) -> Seq<char> {
    let ds = dec_digits(n);
    if s == 0 {
        ds
    } else if ds.len() > s {
        ds.take(ds.len() - s) + seq!['.'] + ds.skip(ds.len() - s)
    } else {
        seq!['0', '.'] + zero_chars((s - ds.len()) as nat) + ds
    }
}

/// Canonical rendering of a decimal number: optional minus sign, then the
/// magnitude. A normalized decimal renders with no trailing fractional
/// zeros, exactly as the payload numbers appear in the text format.
pub open spec fn fmt_decimal(d: Decimal) -> Seq<char> {
    if d.mantissa < 0 {
        seq!['-'] + fmt_dec_mag((-(d.mantissa as int)) as nat, d.scale as nat)
    } else {
        fmt_dec_mag(d.mantissa as nat, d.scale as nat)
    }
}

/// One rendered tag: key as a word, `=`, value always quoted.
pub open spec fn fmt_tag_entry(e: (String, String)) -> Seq<char> {
    word_repr(e.0@) + seq!['='] + quoted(e.1@)
}

pub open spec fn tag_items(entries: Seq<(String, String)>) -> Seq<Seq<char>> {
    entries.map_values(|e: (String, String)| fmt_tag_entry(e))
}

pub open spec fn set_words(items: Seq<String>) -> Seq<Seq<char>> {
    items.map_values(|s: String| word_repr(s@))
}

pub open spec fn dist_pairs(values: Seq<Decimal>, rates: Seq<u32>) -> Seq<Seq<char>> {
    Seq::new(values.len(), |i: int| dec_digits(rates[i] as nat) + seq!['@'] + fmt_decimal(values[i]))
}

pub open spec fn hist_pairs(buckets: Seq<Decimal>, counts: Seq<u32>) -> Seq<Seq<char>> {
    Seq::new(
        buckets.len(),
        |i: int| dec_digits(counts[i] as nat) + seq!['@'] + fmt_decimal(buckets[i]),
    )
}

pub open spec fn summary_pairs(quantiles: Seq<Decimal>, values: Seq<Decimal>) -> Seq<Seq<char>> {
    Seq::new(quantiles.len(), |i: int| fmt_decimal(quantiles[i]) + seq!['@'] + fmt_decimal(values[i]))
}

pub open spec fn statistic_label(s: StatisticKind) -> Seq<char> {
    match s {
        StatisticKind::Histogram => seq!['h', 'i', 's', 't', 'o', 'g', 'r', 'a', 'm', ' '],
        StatisticKind::Summary => seq!['s', 'u', 'm', 'm', 'a', 'r', 'y', ' '],
    }
}

/// `count=<c> sum=<s> `, the prefix of both aggregated payloads.
pub open spec fn count_sum_prefix(count: u32, sum: Decimal) -> Seq<char> {
    seq!['c', 'o', 'u', 'n', 't', '='] + dec_digits(count as nat) + seq![' ', 's', 'u', 'm', '=']
        + fmt_decimal(sum) + seq![' ']
}

/// The payload part of the canonical text format.
pub open spec fn fmt_value(v: MetricValue) -> Seq<char> {
    match v {
        MetricValue::Counter { value } => fmt_decimal(value),
        MetricValue::Gauge { value } => fmt_decimal(value),
        MetricValue::KeySet { values } => join_with(set_words(values.items@), seq![' ']),
        MetricValue::Distribution { values, sample_rates, statistic } => statistic_label(statistic)
            + join_with(dist_pairs(values@, sample_rates@), seq![' ']),
        MetricValue::AggregatedHistogram { buckets, counts, count, sum } => count_sum_prefix(
            count,
            sum,
        ) + join_with(hist_pairs(buckets@, counts@), seq![' ']),
        MetricValue::AggregatedSummary { quantiles, values, count, sum } => count_sum_prefix(
            count,
            sum,
        ) + join_with(summary_pairs(quantiles@, values@), seq![' ']),
    }
}

pub open spec fn kind_char(k: MetricKind) -> char {
    match k {
        MetricKind::Absolute => '=',
        MetricKind::Incremental => '+',
    }
}

/// The whole canonical line: optional timestamp, name as a word, the tag
/// block in braces, the kind marker between spaces, then the payload.
pub open spec fn fmt_metric(m: Metric) -> Seq<char> {
    (match m.timestamp {
        Some(t) => fmt_timestamp(t) + seq![' '],
        None => Seq::<char>::empty(),
    }) + word_repr(m.name@) + seq!['{'] + (match m.tags {
        Some(t) => join_with(tag_items(t.entries@), seq![',']),
        None => Seq::<char>::empty(),
    }) + seq!['}', ' ', kind_char(m.kind), ' '] + fmt_value(m.value)
}

/// Append `src[from..to]` to `out`.
fn push_range(out: &mut Vec<char>, src: &Vec<char>, from: usize, to: usize)
    requires
        from <= to <= src@.len(),
    ensures
        final(out)@ == old(out)@ + src@.subrange(from as int, to as int),
{
    let mut i: usize = from;
    while i < to
        invariant
            from <= i <= to <= src@.len(),
            out@ == old(out)@ + src@.subrange(from as int, i as int),
        decreases to - i,
    {
        out.push(src[i]);
        assert(out@ =~= old(out)@ + src@.subrange(from as int, i + 1));
        i = i + 1;
    }
}

/// Append the canonical rendering of a decimal.
pub fn push_decimal(out: &mut Vec<char>, d: Decimal)
    ensures
        final(out)@ == old(out)@ + fmt_decimal(d),
{
    let neg: bool = d.mantissa < 0;
    let mag: u64 = if neg {
        (-(d.mantissa as i128)) as u64
    } else {
        d.mantissa as u64
    };
    if neg {
        out.push('-');
    }
    let ghost n: nat = mag as nat;
    if d.scale == 0 {
        push_u128_digits(out, mag as u128);
        proof {
            assert(final(out)@ =~= old(out)@ + fmt_decimal(d));
        }
    } else {
        let mut tmp: Vec<char> = Vec::new();
        push_u128_digits(&mut tmp, mag as u128);
        let s: usize = d.scale as usize;
        if tmp.len() > s {
            let cut: usize = tmp.len() - s;
            push_range(out, &tmp, 0, cut);
            out.push('.');
            push_range(out, &tmp, cut, tmp.len());
            proof {
                assert(tmp@.subrange(0, cut as int) =~= dec_digits(n).take(
                    dec_digits(n).len() - d.scale,
                ));
                assert(tmp@.subrange(cut as int, tmp@.len() as int) =~= dec_digits(n).skip(
                    dec_digits(n).len() - d.scale,
                ));
                assert(final(out)@ =~= old(out)@ + fmt_decimal(d));
            }
        } else {
            out.push('0');
            out.push('.');
            push_zeros(out, s - tmp.len());
            push_chars(out, &tmp);
            proof {
                assert(final(out)@ =~= old(out)@ + fmt_decimal(d));
            }
        }
    }
}

/// Render each tag entry on its own.
fn render_tag_items(entries: &Vec<(String, String)>) -> (r: Vec<Vec<char>>)
    ensures
        r@.len() == entries@.len(),
        forall|i: int| 0 <= i < r@.len() ==> r@[i]@ == fmt_tag_entry(entries@[i]),
{
    let mut r: Vec<Vec<char>> = Vec::new();
    let mut i: usize = 0;
    while i < entries.len()
        invariant
            i <= entries@.len(),
            r@.len() == i,
            forall|j: int| 0 <= j < i ==> r@[j]@ == fmt_tag_entry(entries@[j]),
        decreases entries@.len() - i,
    {
        let mut e: Vec<char> = Vec::new();
        let kc = str_to_chars(entries[i].0.as_str());
        write_word(&mut e, &kc);
        e.push('=');
        e.push('"');
        let vc = str_to_chars(entries[i].1.as_str());
        push_escaped(&mut e, &vc);
        e.push('"');
        proof {
            assert(e@ =~= fmt_tag_entry(entries@[i as int]));
        }
        r.push(e);
        i = i + 1;
    }
    r
}

/// Render each set member as a word.
fn render_set_words(items: &Vec<String>) -> (r: Vec<Vec<char>>)
    ensures
        r@.len() == items@.len(),
        forall|i: int| 0 <= i < r@.len() ==> r@[i]@ == word_repr(items@[i]@),
{
    let mut r: Vec<Vec<char>> = Vec::new();
    let mut i: usize = 0;
    while i < items.len()
        invariant
            i <= items@.len(),
            r@.len() == i,
            forall|j: int| 0 <= j < i ==> r@[j]@ == word_repr(items@[j]@),
        decreases items@.len() - i,
    {
        let mut e: Vec<char> = Vec::new();
        let sc = str_to_chars(items[i].as_str());
        write_word(&mut e, &sc);
        r.push(e);
        i = i + 1;
    }
    r
}

/// Render each `rate@value` pair of a raw distribution.
fn render_dist_pairs(values: &Vec<Decimal>, rates: &Vec<u32>) -> (r: Vec<Vec<char>>)
    requires
        values@.len() == rates@.len(),
    ensures
        r@.len() == values@.len(),
        forall|i: int| 0 <= i < r@.len() ==> r@[i]@ == dist_pairs(values@, rates@)[i],
{
    let mut r: Vec<Vec<char>> = Vec::new();
    let mut i: usize = 0;
    while i < values.len()
        invariant
            i <= values@.len(),
            values@.len() == rates@.len(),
            r@.len() == i,
            forall|j: int| 0 <= j < i ==> r@[j]@ == dist_pairs(values@, rates@)[j],
        decreases values@.len() - i,
    {
        let mut e: Vec<char> = Vec::new();
        push_u128_digits(&mut e, rates[i] as u128);
        e.push('@');
        push_decimal(&mut e, values[i]);
        proof {
            assert(e@ =~= dist_pairs(values@, rates@)[i as int]);
        }
        r.push(e);
        i = i + 1;
    }
    r
}

/// Render each `count@bucket` pair of an aggregated histogram.
fn render_hist_pairs(buckets: &Vec<Decimal>, counts: &Vec<u32>) -> (r: Vec<Vec<char>>)
    requires
        buckets@.len() == counts@.len(),
    ensures
        r@.len() == buckets@.len(),
        forall|i: int| 0 <= i < r@.len() ==> r@[i]@ == hist_pairs(buckets@, counts@)[i],
{
    let mut r: Vec<Vec<char>> = Vec::new();
    let mut i: usize = 0;
    while i < buckets.len()
        invariant
            i <= buckets@.len(),
            buckets@.len() == counts@.len(),
            r@.len() == i,
            forall|j: int| 0 <= j < i ==> r@[j]@ == hist_pairs(buckets@, counts@)[j],
        decreases buckets@.len() - i,
    {
        let mut e: Vec<char> = Vec::new();
        push_u128_digits(&mut e, counts[i] as u128);
        e.push('@');
        push_decimal(&mut e, buckets[i]);
        proof {
            assert(e@ =~= hist_pairs(buckets@, counts@)[i as int]);
        }
        r.push(e);
        i = i + 1;
    }
    r
}

/// Render each `quantile@value` pair of an aggregated summary.
fn render_summary_pairs(quantiles: &Vec<Decimal>, values: &Vec<Decimal>) -> (r: Vec<Vec<char>>)
    requires
        quantiles@.len() == values@.len(),
    ensures
        r@.len() == quantiles@.len(),
        forall|i: int| 0 <= i < r@.len() ==> r@[i]@ == summary_pairs(quantiles@, values@)[i],
{
    let mut r: Vec<Vec<char>> = Vec::new();
    let mut i: usize = 0;
    while i < quantiles.len()
        invariant
            i <= quantiles@.len(),
            quantiles@.len() == values@.len(),
            r@.len() == i,
            forall|j: int| 0 <= j < i ==> r@[j]@ == summary_pairs(quantiles@, values@)[j],
        decreases quantiles@.len() - i,
    {
        let mut e: Vec<char> = Vec::new();
        push_decimal(&mut e, quantiles[i]);
        e.push('@');
        push_decimal(&mut e, values[i]);
        proof {
            assert(e@ =~= summary_pairs(quantiles@, values@)[i as int]);
        }
        r.push(e);
        i = i + 1;
    }
    r
}

/// Append the payload rendering.
pub fn push_value(out: &mut Vec<char>, v: &MetricValue)
    requires
        v.wf(),
    ensures
        final(out)@ == old(out)@ + fmt_value(*v),
{
    proof {
        reveal_strlit(" ");
        reveal_strlit("histogram ");
        reveal_strlit("summary ");
        reveal_strlit("count=");
        reveal_strlit(" sum=");
    }
    match v {
        MetricValue::Counter { value } => {
            push_decimal(out, *value);
        },
        MetricValue::Gauge { value } => {
            push_decimal(out, *value);
        },
        MetricValue::KeySet { values } => {
            let items = render_set_words(&values.items);
            write_list(out, " ", &items);
            proof {
                assert(items@.map_values(|v2: Vec<char>| v2@) =~= set_words(values.items@));
                assert((" ")@ =~= seq![' ']);
                assert(final(out)@ =~= old(out)@ + fmt_value(*v));
            }
        },
        MetricValue::Distribution { values, sample_rates, statistic } => {
            match statistic {
                StatisticKind::Histogram => {
                    push_str_chars(out, "histogram ");
                    proof {
                        assert(("histogram ")@ =~= statistic_label(*statistic));
                    }
                },
                StatisticKind::Summary => {
                    push_str_chars(out, "summary ");
                    proof {
                        assert(("summary ")@ =~= statistic_label(*statistic));
                    }
                },
            }
            let items = render_dist_pairs(values, sample_rates);
            write_list(out, " ", &items);
            proof {
                assert(items@.map_values(|v2: Vec<char>| v2@) =~= dist_pairs(
                    values@,
                    sample_rates@,
                ));
                assert((" ")@ =~= seq![' ']);
                assert(final(out)@ =~= old(out)@ + fmt_value(*v));
            }
        },
        MetricValue::AggregatedHistogram { buckets, counts, count, sum } => {
            push_str_chars(out, "count=");
            push_u128_digits(out, *count as u128);
            push_str_chars(out, " sum=");
            push_decimal(out, *sum);
            out.push(' ');
            let items = render_hist_pairs(buckets, counts);
            write_list(out, " ", &items);
            proof {
                assert(items@.map_values(|v2: Vec<char>| v2@) =~= hist_pairs(buckets@, counts@));
                assert((" ")@ =~= seq![' ']);
                assert(("count=")@ =~= seq!['c', 'o', 'u', 'n', 't', '=']);
                assert((" sum=")@ =~= seq![' ', 's', 'u', 'm', '=']);
                assert(final(out)@ =~= old(out)@ + fmt_value(*v));
            }
        },
        MetricValue::AggregatedSummary { quantiles, values, count, sum } => {
            push_str_chars(out, "count=");
            push_u128_digits(out, *count as u128);
            push_str_chars(out, " sum=");
            push_decimal(out, *sum);
            out.push(' ');
            let items = render_summary_pairs(quantiles, values);
            write_list(out, " ", &items);
            proof {
                assert(items@.map_values(|v2: Vec<char>| v2@) =~= summary_pairs(
                    quantiles@,
                    values@,
                ));
                assert((" ")@ =~= seq![' ']);
                assert(("count=")@ =~= seq!['c', 'o', 'u', 'n', 't', '=']);
                assert((" sum=")@ =~= seq![' ', 's', 'u', 'm', '=']);
                assert(final(out)@ =~= old(out)@ + fmt_value(*v));
            }
        },
    }
}

impl Metric {
    /// Render the canonical text line for this metric: timestamp if
    /// present, name, tag block, kind marker, payload. The output is a pure
    /// function of the metric value, hence byte-for-byte deterministic, and
    /// tags appear sorted by key whatever order they were inserted in.
    #[verifier::rlimit(100)]
    pub fn to_text(&self) -> (r: String)
        requires
            self.wf(),
        ensures
            r@ == fmt_metric(*self),
    {
        let mut out: Vec<char> = Vec::new();
        match &self.timestamp {
            Some(t) => {
                push_timestamp(&mut out, t);
                out.push(' ');
            },
            None => {},
        }
        let nc = str_to_chars(self.name.as_str());
        write_word(&mut out, &nc);
        out.push('{');
        match &self.tags {
            Some(t) => {
                let items = render_tag_items(&t.entries);
                write_list(&mut out, ",", &items);
                proof {
                    reveal_strlit(",");
                    assert(items@.map_values(|v2: Vec<char>| v2@) =~= tag_items(t.entries@));
                    assert((",")@ =~= seq![',']);
                }
            },
            None => {},
        }
        out.push('}');
        out.push(' ');
        match self.kind {
            MetricKind::Absolute => out.push('='),
            MetricKind::Incremental => out.push('+'),
        }
        out.push(' ');
        push_value(&mut out, &self.value);
        proof {
            assert(out@ =~= fmt_metric(*self));
        }
        chars_to_string(&out)
    }
}

} // verus!
