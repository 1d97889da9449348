use vstd::prelude::*;
use crate::decimal::{Decimal, MAX_SCALE, pow10, pow10_u64, norm_step};
use crate::metric::{Metric, MetricKind, MetricValue, StatisticKind};
use crate::strset::StringSet;
use crate::tags::TagMap;
use crate::text::{str_to_chars, sub_chars, chars_to_string};

verus! {

/// Default number of seconds a stream source waits for in-flight
/// connections to finish before shutting down.
pub fn default_shutdown_timeout_secs() -> (r: u64)
    ensures
        r == 30,
{
    30
}

/// Why a line of the statsd text protocol was rejected. A malformed line is
/// counted and dropped by the caller, never fatal to the ingestion stream.
#[derive(Clone, Copy, Debug, PartialEq, Eq, Structural)]
pub enum ParseError {
    /// No `:` separating the metric name from its value.
    MissingValue,
    /// The metric name before the `:` is empty.
    EmptyName,
    /// No `|<type>` section after the value.
    MissingType,
    /// The value is not a plain decimal number this model can hold.
    InvalidNumber,
    /// The type section names no known metric type.
    UnknownType,
    /// The `@` sample rate does not parse, is zero or negative, or is not
    /// the reciprocal of a whole number.
    InvalidSampleRate,
}

/// The position of the first `c` in `s` at or after `from`; the length of
/// `s` when there is none.
pub open spec fn find_from(s: Seq<char>, from: int, c: char) -> int
    decreases s.len() - from when 0 <= from <= s.len()
{
    if from >= s.len() {
        s.len() as int
    } else if s[from] == c {
        from
    } else {
        find_from(s, from + 1, c)
    }
}

proof fn lemma_find_from_at(s: Seq<char>, from: int, i: int, c: char)
    requires
        0 <= from <= i < s.len(),
        s[i] == c,
        forall|j: int| from <= j < i ==> s[j] != c,
    ensures
        find_from(s, from, c) == i,
    decreases i - from,
{
    if from < i {
        lemma_find_from_at(s, from + 1, i, c);
    }
}

proof fn lemma_find_from_none(s: Seq<char>, from: int, c: char)
    requires
        0 <= from <= s.len(),
        forall|j: int| from <= j < s.len() ==> s[j] != c,
    ensures
        find_from(s, from, c) == s.len(),
    decreases s.len() - from,
{
    if from < s.len() {
        lemma_find_from_none(s, from + 1, c);
    }
}

/// The first position of `c` in `v` at or after `from`, scanning left to
/// right.
fn find_char(v: &Vec<char>, from: usize, c: char) -> (r: Option<usize>)
    requires
        from <= v@.len(),
    ensures
        match r {
            Some(i) => from <= i < v@.len() && v@[i as int] == c && find_from(v@, from as int, c)
                == i,
            None => find_from(v@, from as int, c) == v@.len(),
        },
{
    let mut i: usize = from;
    while i < v.len()
        invariant
            from <= i <= v@.len(),
            forall|j: int| from <= j < i ==> v@[j] != c,
        decreases v@.len() - i,
    {
        if v[i] == c {
            proof {
                lemma_find_from_at(v@, from as int, i as int, c);
            }
            return Some(i);
        }
        i = i + 1;
    }
    proof {
        lemma_find_from_none(v@, from as int, c);
    }
    None
}

pub open spec fn is_digit(c: char) -> bool {
    '0' <= c && c <= '9'
}

/// Scan the body of a numeral left to right, carrying the magnitude read
/// so far, the number of fractional digits, the dot flag and the
/// seen-a-digit flag, exactly as the parser does; `None` poisons the scan.
pub open spec fn dec_scan(s: Seq<char>, i: int, mag: int, frac: int, seen_dot: bool, any: bool) ->
    Option<(int, int)>
    decreases s.len() - i when 0 <= i <= s.len()
{
    if i >= s.len() {
        if any {
            Some((mag, frac))
        } else {
            None
        }
    } else if s[i] == '.' {
        if seen_dot {
            None
        } else {
            dec_scan(s, i + 1, mag, frac, true, any)
        }
    } else if is_digit(s[i]) {
        let d = s[i] as int - 48;
        if mag * 10 + d > i64::MAX {
            None
        } else if seen_dot && frac >= MAX_SCALE {
            None
        } else {
            dec_scan(
                s,
                i + 1,
                mag * 10 + d,
                if seen_dot {
                    frac + 1
                } else {
                    frac
                },
                seen_dot,
                true,
            )
        }
    } else {
        None
    }
}

/// The normalized decimal a numeral denotes: an optional sign, digits with
/// at most one point, at most `MAX_SCALE` fractional digits, magnitude
/// within the mantissa range — or nothing when the text is no such numeral.
pub open spec fn dec_of_text(s: Seq<char>) -> Option<Decimal> {
    if s.len() == 0 {
        None
    } else {
        let neg = s[0] == '-';
        let body: int = if s[0] == '-' || s[0] == '+' {
            1
        } else {
            0
        };
        match dec_scan(s, body, 0, 0, false, false) {
            Some((mag, frac)) => {
                let m: int = if neg {
                    -mag
                } else {
                    mag
                };
                let (m2, s2) = norm_step(m, frac as nat);
                Some(Decimal { mantissa: m2 as i64, scale: s2 as u32 })
            },
            None => None,
        }
    }
}

/// The running overflow guard and the mathematical one agree.
proof fn lemma_mul10_overflow(mag: int, d: int)
    requires
        0 <= d <= 9,
        0 <= mag,
    ensures
        (mag > (i64::MAX - d) / 10) <==> (mag * 10 + d > i64::MAX),
{
    let q = (i64::MAX - d) / 10;
    let r = (i64::MAX - d) % 10;
    vstd::arithmetic::div_mod::lemma_fundamental_div_mod(i64::MAX - d, 10);
    assert((mag > q) <==> (mag * 10 + d > i64::MAX)) by (nonlinear_arith)
        requires
            i64::MAX - d == 10 * q + r,
            0 <= r < 10,
            0 <= mag,
            0 <= d <= 9,
    ;
}

/// Parse `v[from..to]` as a signed decimal number with at most `MAX_SCALE`
/// fractional digits, into a normalized `Decimal`.
fn parse_decimal(v: &Vec<char>, from: usize, to: usize) -> (r: Option<Decimal>)
    requires
        from <= to <= v@.len(),
    ensures
        r == dec_of_text(v@.subrange(from as int, to as int)),
        r matches Some(d) ==> d.wf(),
{
    let ghost sub = v@.subrange(from as int, to as int);
    let mut i: usize = from;
    if i >= to {
        return None;
    }
    let neg: bool = v[i] == '-';
    if v[i] == '-' || v[i] == '+' {
        i = i + 1;
    }
    let ghost body: int = i - from;
    let mut mag: u64 = 0;
    let mut any_digit: bool = false;
    let mut frac: u32 = 0;
    let mut seen_dot: bool = false;
    while i < to
        invariant
            from <= to <= v@.len(),
            from <= i <= to,
            from + body <= i,
            sub == v@.subrange(from as int, to as int),
            sub.len() > 0,
            body == (if sub[0] == '-' || sub[0] == '+' {
                1int
            } else {
                0int
            }),
            neg == (sub[0] == '-'),
            mag <= i64::MAX as u64,
            frac <= MAX_SCALE,
            dec_scan(sub, i - from, mag as int, frac as int, seen_dot, any_digit) == dec_scan(
                sub,
                body,
                0,
                0,
                false,
                false,
            ),
        decreases to - i,
    {
        let c = v[i];
        proof {
            assert(sub[i - from] == v@[i as int]);
        }
        if c == '.' {
            if seen_dot {
                return None;
            }
            seen_dot = true;
        } else if '0' <= c && c <= '9' {
            let d: u64 = (c as u8 - 48) as u64;
            proof {
                lemma_mul10_overflow(mag as int, d as int);
            }
            if mag > (i64::MAX as u64 - d) / 10 {
                return None;
            }
            if seen_dot && frac >= MAX_SCALE {
                return None;
            }
            mag = mag * 10 + d;
            any_digit = true;
            if seen_dot {
                frac = frac + 1;
            }
        } else {
            return None;
        }
        i = i + 1;
    }
    if !any_digit {
        return None;
    }
    let m: i64 = if neg {
        (-(mag as i128)) as i64
    } else {
        mag as i64
    };
    let r = Decimal::new(m, frac);
    proof {
        assert(sub.len() == to - from);
        assert(dec_scan(sub, sub.len() as int, mag as int, frac as int, seen_dot, true) == Some(
            (mag as int, frac as int),
        ));
    }
    r
}

/// The whole-number reciprocal of a sample rate: `Some(k)` exactly when
/// `rate` is positive and `1/rate` is the whole number `k` within `u32`.
pub open spec fn recip_of(rate: Decimal) -> Option<u32> {
    if rate.mantissa <= 0 {
        None
    } else {
        let p = pow10(rate.scale as nat) as int;
        if p % (rate.mantissa as int) != 0 {
            None
        } else {
            let q = p / (rate.mantissa as int);
            if q == 0 || q > u32::MAX {
                None
            } else {
                Some(q as u32)
            }
        }
    }
}

/// The reciprocal of a sample rate `0 < rate <= 1`, when it is a whole
/// number: `@0.1` means each sample stands for 10.
fn rate_reciprocal(rate: Decimal) -> (r: Option<u32>)
    requires
        rate.wf(),
    ensures
        r == recip_of(rate),
        r matches Some(k) ==> k >= 1,
{
    if rate.mantissa <= 0 {
        return None;
    }
    let m: u64 = rate.mantissa as u64;
    let p: u64 = pow10_u64(rate.scale);
    proof {
        crate::decimal::lemma_pow10_pos(rate.scale as nat);
    }
    if p % m != 0 {
        return None;
    }
    let q: u64 = p / m;
    if q == 0 || q > u32::MAX as u64 {
        return None;
    }
    Some(q as u32)
}

/// The tag section folded into a mapping, left to right: segments split at
/// commas, each `key:value` or bare `key` (worth `true`), later segments
/// overriding earlier ones.
pub open spec fn tags_scan(v: Seq<char>, i: int, to: int, acc: Map<Seq<char>, Seq<char>>) -> Map<
    Seq<char>,
    Seq<char>,
>
    decreases to - i when i <= to
{
    if i >= to {
        acc
    } else {
        let fc = find_from(v, i, ',');
        let seg_end: int = if fc < to {
            if fc < i {
                i
            } else {
                fc
            }
        } else {
            to
        };
        let acc2 = if seg_end > i {
            let colon = find_from(v, i, ':');
            if colon < seg_end {
                acc.insert(v.subrange(i, colon), v.subrange(colon + 1, seg_end))
            } else {
                acc.insert(v.subrange(i, seg_end), ("true")@)
            }
        } else {
            acc
        };
        let next: int = if seg_end >= to {
            to
        } else {
            seg_end + 1
        };
        tags_scan(v, next, to, acc2)
    }
}

pub open spec fn tags_map_of(v: Seq<char>, from: int, to: int) -> Map<Seq<char>, Seq<char>> {
    tags_scan(v, from, to, Map::empty())
}

/// Parse the `#key:value,key2` tag section into a sorted tag map.
fn parse_tags(v: &Vec<char>, from: usize, to: usize) -> (r: TagMap)
    requires
        from <= to <= v@.len(),
    ensures
        r.wf(),
        r@ == tags_map_of(v@, from as int, to as int),
{
    let mut tags = TagMap::new();
    let mut i: usize = from;
    while i < to
        invariant
            from <= i <= to <= v@.len(),
            tags.wf(),
            tags_scan(v@, i as int, to as int, tags@) == tags_map_of(v@, from as int, to as int),
        decreases to - i,
    {
        let seg_end: usize = match find_char(v, i, ',') {
            Some(p) => if p < to {
                p
            } else {
                to
            },
            None => to,
        };
        if seg_end > i {
            let colon = find_char(v, i, ':');
            match colon {
                Some(p) if p < seg_end => {
                    let k = chars_to_string(&sub_chars(v, i, p));
                    let val = chars_to_string(&sub_chars(v, p + 1, seg_end));
                    tags.insert(k, val);
                },
                _ => {
                    let k = chars_to_string(&sub_chars(v, i, seg_end));
                    tags.insert(k, String::from_str("true"));
                },
            }
        }
        i = if seg_end >= to {
            to
        } else {
            seg_end + 1
        };
    }
    tags
}

// ------------------------------------------------------------------
// the line grammar, `name:value|type[|@rate][|#tags]`, at spec level
// ------------------------------------------------------------------

pub open spec fn sd_colon(l: Seq<char>) -> int {
    find_from(l, 0, ':')
}

pub open spec fn sd_vbar(l: Seq<char>) -> int {
    find_from(l, sd_colon(l) + 1, '|')
}

pub open spec fn sd_type_to(l: Seq<char>) -> int {
    find_from(l, sd_vbar(l) + 1, '|')
}

/// The metric name: everything before the first `:`.
pub open spec fn sd_name(l: Seq<char>) -> Seq<char> {
    l.subrange(0, sd_colon(l))
}

/// The value numeral: between the first `:` and the following `|`.
pub open spec fn sd_value_text(l: Seq<char>) -> Seq<char> {
    l.subrange(sd_colon(l) + 1, sd_vbar(l))
}

/// The type code: between the first and second `|`.
pub open spec fn sd_type_text(l: Seq<char>) -> Seq<char> {
    l.subrange(sd_vbar(l) + 1, sd_type_to(l))
}

/// Walk the optional sections after the type, left to right: each starts
/// at a `|`; an `@` section replaces the sample rate (an unparseable one
/// poisons the walk), a `#` section replaces the tag block, anything else
/// is ignored.
pub open spec fn sd_sections(
    l: Seq<char>,
    sec: int,
    rate: Option<Decimal>,
    tags: Option<Map<Seq<char>, Seq<char>>>,
) -> Option<(Option<Decimal>, Option<Map<Seq<char>, Seq<char>>>)>
    decreases l.len() - sec when 0 <= sec
{
    if sec >= l.len() {
        Some((rate, tags))
    } else {
        let start = sec + 1;
        let e0 = find_from(l, start, '|');
        let end: int = if e0 < start {
            start
        } else if e0 > l.len() {
            l.len() as int
        } else {
            e0
        };
        if start < end && l[start] == '@' {
            match dec_of_text(l.subrange(start + 1, end)) {
                Some(d) => sd_sections(l, end, Some(d), tags),
                None => None,
            }
        } else if start < end && l[start] == '#' {
            sd_sections(l, end, rate, Some(tags_map_of(l, start + 1, end)))
        } else {
            sd_sections(l, end, rate, tags)
        }
    }
}

pub open spec fn sd_rate_tags(l: Seq<char>) -> Option<
    (Option<Decimal>, Option<Map<Seq<char>, Seq<char>>>),
> {
    sd_sections(l, sd_type_to(l), None, None)
}

/// The effective whole-number sample-rate reciprocal: one without an `@`
/// section, the reciprocal of the last `@` rate otherwise; nothing when a
/// rate was unparseable or has no whole reciprocal.
pub open spec fn sd_recip(l: Seq<char>) -> Option<u32> {
    match sd_rate_tags(l) {
        Some((Some(d), _)) => recip_of(d),
        Some((None, _)) => Some(1u32),
        None => None,
    }
}

/// The tag mapping of the last `#` section, if any.
pub open spec fn sd_tags_view(l: Seq<char>) -> Option<Map<Seq<char>, Seq<char>>> {
    match sd_rate_tags(l) {
        Some((_, t)) => t,
        None => None,
    }
}

pub open spec fn sd_type_c(l: Seq<char>) -> bool {
    let t = sd_type_text(l);
    t.len() == 1 && t[0] == 'c'
}

pub open spec fn sd_type_g(l: Seq<char>) -> bool {
    let t = sd_type_text(l);
    t.len() == 1 && t[0] == 'g'
}

pub open spec fn sd_type_h(l: Seq<char>) -> bool {
    let t = sd_type_text(l);
    t.len() == 1 && t[0] == 'h'
}

pub open spec fn sd_type_s(l: Seq<char>) -> bool {
    let t = sd_type_text(l);
    t.len() == 1 && t[0] == 's'
}

pub open spec fn sd_type_ms(l: Seq<char>) -> bool {
    let t = sd_type_text(l);
    t.len() == 2 && t[0] == 'm' && t[1] == 's'
}

pub open spec fn sd_known_type(l: Seq<char>) -> bool {
    sd_type_c(l) || sd_type_g(l) || sd_type_h(l) || sd_type_ms(l) || sd_type_s(l)
}

/// Whether the value text works for the line's type: sets take any text;
/// the numeric types need a parseable numeral, counters additionally a
/// rate-scaled mantissa in range, timers three spare fractional digits for
/// the milliseconds-to-seconds shift.
pub open spec fn sd_value_ok(l: Seq<char>) -> bool {
    if sd_type_s(l) {
        true
    } else {
        match dec_of_text(sd_value_text(l)) {
            Some(d) => if sd_type_c(l) {
                match sd_recip(l) {
                    Some(k) => i64::MIN <= d.mantissa * k <= i64::MAX,
                    None => true,
                }
            } else if sd_type_ms(l) {
                d.scale + 3 <= MAX_SCALE
            } else {
                true
            },
            None => false,
        }
    }
}

/// How a line fails, if it fails: the checks in the order the parser makes
/// them. `None` means the line parses.
pub open spec fn sd_error(l: Seq<char>) -> Option<ParseError> {
    let n = l.len() as int;
    if sd_colon(l) >= n {
        Some(ParseError::MissingValue)
    } else if sd_colon(l) == 0 {
        Some(ParseError::EmptyName)
    } else if sd_vbar(l) >= n {
        Some(ParseError::MissingType)
    } else if sd_value_text(l).len() == 0 {
        Some(ParseError::InvalidNumber)
    } else if sd_rate_tags(l) is None {
        Some(ParseError::InvalidSampleRate)
    } else if sd_recip(l) is None {
        Some(ParseError::InvalidSampleRate)
    } else if !sd_known_type(l) {
        Some(ParseError::UnknownType)
    } else if !sd_value_ok(l) {
        Some(ParseError::InvalidNumber)
    } else {
        None
    }
}

/// An explicitly signed value text makes a gauge a delta.
pub open spec fn sd_signed(l: Seq<char>) -> bool {
    let v = sd_value_text(l);
    v.len() > 0 && (v[0] == '+' || v[0] == '-')
}

/// The kind of the parsed metric: gauges without an explicit sign are
/// absolute levels, everything else is an incremental delta.
pub open spec fn sd_kind(l: Seq<char>) -> MetricKind {
    if sd_type_g(l) && !sd_signed(l) {
        MetricKind::Absolute
    } else {
        MetricKind::Incremental
    }
}

/// The payload the parsed metric carries, variant and content fixed by the
/// line (meaningful when `sd_error(l)` is `None`).
pub open spec fn sd_value_matches(l: Seq<char>, v: MetricValue) -> bool {
    let d = dec_of_text(sd_value_text(l)).unwrap();
    let k = sd_recip(l).unwrap();
    if sd_type_c(l) {
        let (m2, s2) = norm_step(d.mantissa * k, d.scale as nat);
        v == (MetricValue::Counter { value: Decimal { mantissa: m2 as i64, scale: s2 as u32 } })
    } else if sd_type_g(l) {
        v == (MetricValue::Gauge { value: d })
    } else if sd_type_h(l) {
        v matches MetricValue::Distribution { values, sample_rates, statistic } && values@ =~= seq![
            d,
        ] && sample_rates@ =~= seq![k] && statistic == StatisticKind::Histogram
    } else if sd_type_ms(l) {
        let (m2, s2) = norm_step(d.mantissa as int, (d.scale + 3) as nat);
        v matches MetricValue::Distribution { values, sample_rates, statistic } && values@ =~= seq![
            Decimal { mantissa: m2 as i64, scale: s2 as u32 },
        ] && sample_rates@ =~= seq![k] && statistic == StatisticKind::Histogram
    } else {
        v matches MetricValue::KeySet { values: ss } && ss.wf() && ss@ == Set::<
            Seq<char>,
        >::empty().insert(sd_value_text(l))
    }
}

/// The content a successfully parsed metric must carry: the line's name,
/// no timestamp, the line's tag mapping (none without a `#` section), the
/// line's kind and payload.
pub open spec fn sd_metric_matches(l: Seq<char>, m: Metric) -> bool {
    &&& m.wf()
    &&& m.name@ == sd_name(l)
    &&& m.name@.len() > 0
    &&& m.timestamp is None
    &&& m.kind == sd_kind(l)
    &&& sd_value_matches(l, m.value)
    &&& match (m.tags, sd_tags_view(l)) {
        (None, None) => true,
        (Some(t), Some(mv)) => t.wf() && t@ == mv,
        _ => false,
    }
}

/// Parse one line of the statsd text protocol,
/// `name:value|type[|@rate][|#tag1:v1,tag2]`, into a metric observation.
/// Counters (`c`) are incremental and scaled by the reciprocal of the
/// sample rate; gauges (`g`) are absolute unless the value carries an
/// explicit sign, which makes it a delta; timers (`ms`, converted to
/// seconds) and histograms (`h`) become raw distributions whose sample
/// rate is the reciprocal of the `@rate`; sets (`s`) hold the value text
/// as a member. The result is pinned by the grammar: the line parses
/// exactly when `sd_error` clears it, the failing check names the error,
/// and a parsed metric carries exactly the line's name, kind, payload and
/// tags.
pub fn parse(line: &str) -> (r: Result<Metric, ParseError>)
    ensures
        (r is Ok <==> sd_error(line@) is None),
        r matches Err(e) ==> Some(e) == sd_error(line@),
        r matches Ok(m) ==> sd_metric_matches(line@, m),
{
    let chars = str_to_chars(line);
    let total: usize = chars.len();
    let colon: usize = match find_char(&chars, 0, ':') {
        Some(p) => p,
        None => {
            return Err(ParseError::MissingValue);
        },
    };
    if colon == 0 {
        return Err(ParseError::EmptyName);
    }
    let vbar: usize = match find_char(&chars, colon + 1, '|') {
        Some(p) => p,
        None => {
            return Err(ParseError::MissingType);
        },
    };
    let value_from: usize = colon + 1;
    let value_to: usize = vbar;
    if value_to <= value_from {
        proof {
            assert(sd_value_text(line@).len() == 0);
        }
        return Err(ParseError::InvalidNumber);
    }
    let name_chars = sub_chars(&chars, 0, colon);
    let name = chars_to_string(&name_chars);
    let signed: bool = chars[value_from] == '+' || chars[value_from] == '-';
    let type_to: usize = match find_char(&chars, vbar + 1, '|') {
        Some(p) => p,
        None => chars.len(),
    };
    proof {
        assert(sd_type_to(line@) == type_to as int);
        assert(sd_value_text(line@) == line@.subrange(value_from as int, value_to as int));
        assert(sd_value_text(line@).len() > 0);
        assert(sd_signed(line@) == signed);
    }
    // the one- or two-character type code
    let tlen: usize = type_to - (vbar + 1);
    let t1: char = if tlen >= 1 {
        chars[vbar + 1]
    } else {
        ' '
    };
    let t2: char = if tlen >= 2 {
        chars[vbar + 2]
    } else {
        ' '
    };
    proof {
        assert(sd_type_text(line@).len() == tlen);
        if tlen >= 1 {
            assert(sd_type_text(line@)[0] == t1);
        }
        if tlen >= 2 {
            assert(sd_type_text(line@)[1] == t2);
        }
    }
    // optional sections after the type: a sample rate and a tag block
    let mut rate: Option<Decimal> = None;
    let mut tags: Option<TagMap> = None;
    let mut sec: usize = type_to;
    while sec < chars.len()
        invariant
            chars@ == line@,
            sec <= chars@.len(),
            0 < colon < line@.len(),
            sd_colon(line@) == colon as int,
            sd_vbar(line@) == vbar as int,
            colon < vbar < line@.len(),
            vbar > colon + 1,
            sd_type_to(line@) == type_to as int,
            vbar < type_to <= line@.len(),
            type_to <= sec,
            match rate {
                Some(d) => d.wf(),
                None => true,
            },
            match tags {
                Some(t) => t.wf(),
                None => true,
            },
            sd_rate_tags(line@) == sd_sections(
                line@,
                sec as int,
                rate,
                match tags {
                    Some(t) => Some(t@),
                    None => None,
                },
            ),
        decreases chars@.len() - sec,
    {
        let sec_start: usize = sec + 1;
        let sec_end: usize = match find_char(&chars, sec_start, '|') {
            Some(p) => p,
            None => chars.len(),
        };
        if sec_start < sec_end {
            if chars[sec_start] == '@' {
                match parse_decimal(&chars, sec_start + 1, sec_end) {
                    Some(d) => {
                        rate = Some(d);
                    },
                    None => {
                        proof {
                            assert(sd_rate_tags(line@) is None);
                        }
                        return Err(ParseError::InvalidSampleRate);
                    },
                }
            } else if chars[sec_start] == '#' {
                tags = Some(parse_tags(&chars, sec_start + 1, sec_end));
            }
        }
        sec = sec_end;
    }
    proof {
        assert(sd_rate_tags(line@) == Some(
            (
                rate,
                match tags {
                    Some(t) => Some(t@),
                    None => None::<Map<Seq<char>, Seq<char>>>,
                },
            ),
        ));
    }
    let recip: u32 = match rate {
        Some(d) => {
            match rate_reciprocal(d) {
                Some(k) => k,
                None => {
                    proof {
                        assert(sd_recip(line@) is None);
                    }
                    return Err(ParseError::InvalidSampleRate);
                },
            }
        },
        None => 1,
    };
    proof {
        assert(sd_recip(line@) == Some(recip));
    }
    let value: MetricValue;
    let kind: MetricKind;
    if tlen == 1 && t1 == 'c' {
        let d = match parse_decimal(&chars, value_from, value_to) {
            Some(d) => d,
            None => {
                return Err(ParseError::InvalidNumber);
            },
        };
        let scaled = match d.mantissa.checked_mul(recip as i64) {
            Some(m) => m,
            None => {
                return Err(ParseError::InvalidNumber);
            },
        };
        let c = match Decimal::new(scaled, d.scale) {
            Some(c) => c,
            None => {
                return Err(ParseError::InvalidNumber);
            },
        };
        value = MetricValue::Counter { value: c };
        kind = MetricKind::Incremental;
    } else if tlen == 1 && t1 == 'g' {
        let d = match parse_decimal(&chars, value_from, value_to) {
            Some(d) => d,
            None => {
                return Err(ParseError::InvalidNumber);
            },
        };
        value = MetricValue::Gauge { value: d };
        kind = if signed {
            MetricKind::Incremental
        } else {
            MetricKind::Absolute
        };
    } else if tlen == 1 && t1 == 'h' {
        let d = match parse_decimal(&chars, value_from, value_to) {
            Some(d) => d,
            None => {
                return Err(ParseError::InvalidNumber);
            },
        };
        let mut values: Vec<Decimal> = Vec::new();
        values.push(d);
        let mut rates: Vec<u32> = Vec::new();
        rates.push(recip);
        value = MetricValue::Distribution {
            values,
            sample_rates: rates,
            statistic: StatisticKind::Histogram,
        };
        kind = MetricKind::Incremental;
    } else if tlen == 2 && t1 == 'm' && t2 == 's' {
        let d = match parse_decimal(&chars, value_from, value_to) {
            Some(d) => d,
            None => {
                return Err(ParseError::InvalidNumber);
            },
        };
        // milliseconds to seconds: three more fractional digits
        if d.scale + 3 > MAX_SCALE {
            return Err(ParseError::InvalidNumber);
        }
        let secs = match Decimal::new(d.mantissa, d.scale + 3) {
            Some(c) => c,
            None => {
                return Err(ParseError::InvalidNumber);
            },
        };
        let mut values: Vec<Decimal> = Vec::new();
        values.push(secs);
        let mut rates: Vec<u32> = Vec::new();
        rates.push(recip);
        value = MetricValue::Distribution {
            values,
            sample_rates: rates,
            statistic: StatisticKind::Histogram,
        };
        kind = MetricKind::Incremental;
    } else if tlen == 1 && t1 == 's' {
        let member = chars_to_string(&sub_chars(&chars, value_from, value_to));
        let mut values = StringSet::new();
        values.insert(member);
        value = MetricValue::KeySet { values };
        kind = MetricKind::Incremental;
    } else {
        proof {
            assert(!sd_known_type(line@));
        }
        return Err(ParseError::UnknownType);
    }
    proof {
        assert(name@ =~= sd_name(line@));
        assert(sd_error(line@) is None);
        assert(sd_value_matches(line@, value));
    }
    Ok(Metric { name, timestamp: None, tags, kind, value })
}

/// Turn one input line into at most one metric: exactly the lines the
/// grammar clears yield one, and a malformed line is dropped, never fatal.
pub fn parse_event(line: &str) -> (r: Option<Metric>)
    ensures
        (r is Some <==> sd_error(line@) is None),
        r matches Some(m) ==> sd_metric_matches(line@, m),
{
    match parse(line) {
        Ok(metric) => Some(metric),
        Err(_) => None,
    }
}

} // verus!
