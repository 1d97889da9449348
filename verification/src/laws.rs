use vstd::prelude::*;
use crate::decimal::{Decimal, pow10, norm_step, lemma_norm_step_props, lemma_pow10_add};
use crate::metric::{Metric, MetricValue, dec_add_opt, merged_num, value_merged, value_reset,
    summed_counts, hist_merge_ok, value_equiv};
use crate::format::{fmt_metric, fmt_tag_entry, tag_items};
use crate::tags::lemma_tagmap_canonical;

verus! {

/// Merging two finite counter or gauge magnitudes yields their exact sum.
/// With `a = ma/10^sa` and `b = mb/10^sb`, the merged value `m/10^s`
/// satisfies the cross-multiplied identity
/// `m * 10^(sa+sb) == (ma*10^sb + mb*10^sa) * 10^s`,
/// which says precisely `m/10^s == a + b` over the rationals.
pub proof fn lemma_merge_num_exact(a: Decimal, b: Decimal)
    requires
        a.wf(),
        b.wf(),
        dec_add_opt(a, b) is Some,
    ensures
        merged_num(a, b).wf(),
        merged_num(a, b).mantissa * pow10((a.scale + b.scale) as nat) == (a.mantissa * pow10(
            b.scale as nat,
        ) + b.mantissa * pow10(a.scale as nat)) * pow10(merged_num(a, b).scale as nat),
{
    let sa = a.scale as nat;
    let sb = b.scale as nat;
    let smax: nat = if sa >= sb {
        sa
    } else {
        sb
    };
    let pre = a.scaled(smax) + b.scaled(smax);
    lemma_norm_step_props(pre, smax);
    let (m, s) = norm_step(pre, smax);
    assert(m * pow10(smax) == pre * pow10(s));
    let r = merged_num(a, b);
    assert(r.mantissa == m && r.scale as nat == s);
    let d: nat = (sa + sb - smax) as nat;
    lemma_pow10_add(smax, d);
    assert((m * pow10(smax)) * pow10(d) == (pre * pow10(s)) * pow10(d)) by (nonlinear_arith)
        requires
            m * pow10(smax) == pre * pow10(s),
    ;
    assert(m * pow10((sa + sb) as nat) == (m * pow10(smax)) * pow10(d)) by (nonlinear_arith)
        requires
            pow10((smax + d) as nat) == pow10(smax) * pow10(d),
            smax + d == sa + sb,
    ;
    let pa = a.mantissa * pow10((smax - sa) as nat);
    let pb = b.mantissa * pow10((smax - sb) as nat);
    assert(pre == pa + pb);
    lemma_pow10_add((smax - sa) as nat, d);
    lemma_pow10_add((smax - sb) as nat, d);
    assert((smax - sa) + d == sb);
    assert((smax - sb) + d == sa);
    assert((pre * pow10(s)) * pow10(d) == (pre * pow10(d)) * pow10(s)) by (nonlinear_arith);
    assert(pre * pow10(d) == a.mantissa * pow10(sb) + b.mantissa * pow10(sa)) by (nonlinear_arith)
        requires
            pre == pa + pb,
            pa == a.mantissa * pow10((smax - sa) as nat),
            pb == b.mantissa * pow10((smax - sb) as nat),
            pow10(sb) == pow10((smax - sa) as nat) * pow10(d),
            pow10(sa) == pow10((smax - sb) as nat) * pow10(d),
    ;
    assert(r.mantissa * pow10((a.scale + b.scale) as nat) == (a.mantissa * pow10(sb) + b.mantissa
        * pow10(sa)) * pow10(s));
    assert(merged_num(a, b).wf());
}

/// Merging two Set payloads yields the union of their member sets: every
/// member of either operand is a member of the result, duplicates collapse,
/// and nothing else appears.
pub proof fn lemma_set_merge_union(tv: MetricValue, ov: MetricValue, nv: MetricValue)
    requires
        tv matches MetricValue::KeySet { .. },
        ov matches MetricValue::KeySet { .. },
        value_merged(tv, ov, nv),
    ensures
        ({
            let a = tv->KeySet_values;
            let b = ov->KeySet_values;
            &&& nv matches MetricValue::KeySet { values: c } && forall|s: Seq<char>|
                #![trigger c@.contains(s)]
                c@.contains(s) <==> (a@.contains(s) || b@.contains(s))
        }),
{
}

/// Merging two Distribution payloads with the same statistic concatenates
/// both parallel sequences, left operand first, lengths adding up.
pub proof fn lemma_distribution_concat(tv: MetricValue, ov: MetricValue, nv: MetricValue)
    requires
        tv matches MetricValue::Distribution { .. },
        ov matches MetricValue::Distribution { .. },
        tv->Distribution_statistic == ov->Distribution_statistic,
        value_merged(tv, ov, nv),
    ensures
        nv matches MetricValue::Distribution { .. },
        nv->Distribution_values@.len() == tv->Distribution_values@.len()
            + ov->Distribution_values@.len(),
        nv->Distribution_sample_rates@.len() == tv->Distribution_sample_rates@.len()
            + ov->Distribution_sample_rates@.len(),
        nv->Distribution_values@ == tv->Distribution_values@ + ov->Distribution_values@,
        nv->Distribution_sample_rates@ == tv->Distribution_sample_rates@
            + ov->Distribution_sample_rates@,
        nv->Distribution_statistic == tv->Distribution_statistic,
{
}

/// A histogram merge is shape-guarded: with identical bucket bounds (and
/// representable totals) the counts add position-wise and the totals add;
/// with differing bucket bounds the target is left completely unchanged.
pub proof fn lemma_histogram_merge_guard(tv: MetricValue, ov: MetricValue, nv: MetricValue)
    requires
        tv matches MetricValue::AggregatedHistogram { .. },
        ov matches MetricValue::AggregatedHistogram { .. },
        value_merged(tv, ov, nv),
    ensures
        tv->AggregatedHistogram_buckets@ == ov->AggregatedHistogram_buckets@ && hist_merge_ok(
            tv->AggregatedHistogram_counts@,
            ov->AggregatedHistogram_counts@,
            tv->AggregatedHistogram_count,
            ov->AggregatedHistogram_count,
            tv->AggregatedHistogram_sum,
            ov->AggregatedHistogram_sum,
        ) && tv->AggregatedHistogram_counts@.len() == ov->AggregatedHistogram_counts@.len() ==> ({
            &&& nv matches MetricValue::AggregatedHistogram { .. }
            &&& nv->AggregatedHistogram_buckets@ == tv->AggregatedHistogram_buckets@
            &&& nv->AggregatedHistogram_counts@.len() == tv->AggregatedHistogram_counts@.len()
            &&& forall|i: int|
                0 <= i < nv->AggregatedHistogram_counts@.len()
                    ==> nv->AggregatedHistogram_counts@[i] == tv->AggregatedHistogram_counts@[i]
                    + ov->AggregatedHistogram_counts@[i]
            &&& nv->AggregatedHistogram_count == tv->AggregatedHistogram_count
                + ov->AggregatedHistogram_count
        }),
        tv->AggregatedHistogram_buckets@ != ov->AggregatedHistogram_buckets@ ==> nv == tv,
{
    if tv->AggregatedHistogram_buckets@ == ov->AggregatedHistogram_buckets@ && hist_merge_ok(
        tv->AggregatedHistogram_counts@,
        ov->AggregatedHistogram_counts@,
        tv->AggregatedHistogram_count,
        ov->AggregatedHistogram_count,
        tv->AggregatedHistogram_sum,
        ov->AggregatedHistogram_sum,
    ) && tv->AggregatedHistogram_counts@.len() == ov->AggregatedHistogram_counts@.len() {
        assert(nv->AggregatedHistogram_counts@ == summed_counts(
            tv->AggregatedHistogram_counts@,
            ov->AggregatedHistogram_counts@,
        ));
    }
}

/// A reset preserves the shape of an aggregated histogram: the same bucket
/// bounds in the same order, every per-bucket count zero, and zero total
/// count and sum.
pub proof fn lemma_reset_preserves_shape(ov: MetricValue, nv: MetricValue)
    requires
        ov matches MetricValue::AggregatedHistogram { .. },
        value_reset(ov, nv),
    ensures
        nv matches MetricValue::AggregatedHistogram { .. },
        nv->AggregatedHistogram_buckets@ == ov->AggregatedHistogram_buckets@,
        nv->AggregatedHistogram_counts@.len() == ov->AggregatedHistogram_counts@.len(),
        forall|i: int|
            0 <= i < nv->AggregatedHistogram_counts@.len() ==> nv->AggregatedHistogram_counts@[i]
                == 0,
        nv->AggregatedHistogram_count == 0,
        nv->AggregatedHistogram_sum == (Decimal { mantissa: 0i64, scale: 0u32 }),
{
}

/// The canonical rendering is a function of a metric's observable content
/// alone: two well-formed metrics with the same name, timestamp, kind, tag
/// mapping and payload content render to the same characters, whatever
/// order their tags were inserted in.
pub proof fn lemma_format_deterministic(a: Metric, b: Metric)
    requires
        a.wf(),
        b.wf(),
        a.name@ == b.name@,
        a.timestamp == b.timestamp,
        a.kind == b.kind,
        match (a.tags, b.tags) {
            (None, None) => true,
            (Some(x), Some(y)) => x@ == y@,
            _ => false,
        },
        value_equiv(a.value, b.value),
    ensures
        fmt_metric(a) == fmt_metric(b),
{
    match (a.tags, b.tags) {
        (Some(x), Some(y)) => {
            lemma_tagmap_canonical(x, y);
            assert forall|i: int| 0 <= i < x.entries@.len() implies fmt_tag_entry(x.entries@[i])
                == fmt_tag_entry(y.entries@[i]) by {
                assert(x.key_at(i) == y.key_at(i));
                assert(x.val_at(i) == y.val_at(i));
            }
            assert(tag_items(x.entries@) =~= tag_items(y.entries@));
        },
        _ => {},
    }
    match (a.value, b.value) {
        (MetricValue::KeySet { values: x }, MetricValue::KeySet { values: y }) => {
            assert(crate::format::set_words(x.items@) =~= crate::format::set_words(y.items@));
        },
        _ => {},
    }
    assert(fmt_metric(a) == fmt_metric(b));
}

} // verus!
