use vstd::prelude::*;
use vstd::arithmetic::mul::*;

verus! {

/// Largest scale (number of fractional decimal digits) a `Decimal` may carry.
/// Keeping the scale at or below 18 guarantees that aligning two mantissas to
/// a common scale always fits in an `i128` intermediate.
pub const MAX_SCALE: u32 = 18;

/// `pow10(e)` is `10^e`.
pub open spec fn pow10(e: nat) -> nat
    decreases e,
{
    if e == 0 {
        1
    } else {
        10 * pow10((e - 1) as nat)
    }
}

pub proof fn lemma_pow10_pos(e: nat)
    ensures
        pow10(e) >= 1,
    decreases e,
{
    if e > 0 {
        lemma_pow10_pos((e - 1) as nat);
    }
}

pub proof fn lemma_pow10_mono(a: nat, b: nat)
    requires
        a <= b,
    ensures
        pow10(a) <= pow10(b),
    decreases b,
{
    if a < b {
        lemma_pow10_mono(a, (b - 1) as nat);
        lemma_pow10_pos((b - 1) as nat);
    }
}

pub proof fn lemma_pow10_add(a: nat, b: nat)
    ensures
        pow10(a + b) == pow10(a) * pow10(b),
    decreases a,
{
    if a == 0 {
        assert(pow10(0 + b) == 1 * pow10(b));
    } else {
        lemma_pow10_add((a - 1) as nat, b);
        assert(pow10(a + b) == 10 * pow10((a + b - 1) as nat));
        assert(10 * (pow10((a - 1) as nat) * pow10(b)) == (10 * pow10((a - 1) as nat)) * pow10(b))
            by (nonlinear_arith);
    }
}

/// An exact decimal number `mantissa / 10^scale`, the library's stand-in for
/// the numeric magnitude of a metric (counter totals, gauge levels, bucket
/// bounds, sums). A well-formed value is normalized: no trailing zero digits
/// in the fractional part, so each represented number has exactly one
/// well-formed representation, and structural equality is value equality.
#[derive(Clone, Copy, Debug, PartialEq, Eq, Structural, Hash)]
pub struct Decimal {
    pub mantissa: i64,
    pub scale: u32,
}

/// Magnitude `mag` with an explicit sign, as a mathematical integer.
pub open spec fn sgn_val(neg: bool, mag: nat) -> int {
    if neg {
        -(mag as int)
    } else {
        mag as int
    }
}

/// Strip factors of ten from `m`, lowering the scale accordingly, until the
/// scale is zero or the mantissa is no longer divisible by ten.
pub open spec fn norm_step(m: int, s: nat) -> (int, nat)
    decreases s,
{
    if s == 0 || m % 10 != 0 {
        (m, s)
    } else {
        norm_step(m / 10, (s - 1) as nat)
    }
}

impl Decimal {
    /// Normalized representation with a bounded scale.
    pub open spec fn wf(self) -> bool {
        &&& self.scale <= MAX_SCALE
        &&& self.scale > 0 ==> self.mantissa % 10 != 0
    }

    /// The mantissa this number would have at the (coarser) scale `s`.
    pub open spec fn scaled(self, s: nat) -> int {
        self.mantissa * pow10((s - self.scale) as nat)
    }
}

/// The exact sum of two decimals, as a normalized (mantissa, scale) pair over
/// unbounded integers: align both operands to the larger scale, add the
/// aligned mantissas, then normalize.
pub open spec fn dec_add_spec(a: Decimal, b: Decimal) -> (int, nat) {
    let s: nat = if a.scale >= b.scale {
        a.scale as nat
    } else {
        b.scale as nat
    };
    norm_step(a.scaled(s) + b.scaled(s), s)
}

pub proof fn lemma_norm_step_props(m: int, s: nat)
    ensures
        ({
            let (m2, s2) = norm_step(m, s);
            &&& s2 <= s
            &&& (s2 > 0 ==> m2 % 10 != 0)
            &&& m2 * pow10(s) == m * pow10(s2)
        }),
    decreases s,
{
    if s == 0 || m % 10 != 0 {
    } else {
        let k = m / 10;
        lemma_norm_step_props(k, (s - 1) as nat);
        let (m2, s2) = norm_step(m, s);
        assert(m == 10 * k) by {
            vstd::arithmetic::div_mod::lemma_fundamental_div_mod(m, 10);
        }
        assert(m2 * pow10((s - 1) as nat) == k * pow10(s2));
        assert(m2 * pow10(s) == m2 * (10 * pow10((s - 1) as nat)));
        assert(m2 * (10 * pow10((s - 1) as nat)) == 10 * (m2 * pow10((s - 1) as nat)))
            by (nonlinear_arith);
        assert(10 * (k * pow10(s2)) == (10 * k) * pow10(s2)) by (nonlinear_arith);
    }
}

/// Dividing a negated multiple of ten: `-(10k)/10 == -k`, and the remainder
/// stays zero. Connects the unsigned magnitude arithmetic the executable code
/// does with the signed arithmetic of the specification.
proof fn lemma_neg_div10(mag: int)
    requires
        mag >= 0,
        mag % 10 == 0,
    ensures
        (-mag) % 10 == 0,
        (-mag) / 10 == -(mag / 10),
{
    let k = mag / 10;
    vstd::arithmetic::div_mod::lemma_fundamental_div_mod(mag, 10);
    assert(-mag == (-k) * 10 + 0) by (nonlinear_arith)
        requires
            mag == 10 * k,
    ;
    vstd::arithmetic::div_mod::lemma_fundamental_div_mod_converse(-mag, 10, -k, 0);
}

/// Strip trailing zero digits from a sign-magnitude decimal representation,
/// lowering the scale in step, exactly as `norm_step` does on the signed value.
fn normalize_parts(neg: bool, mag0: u128, s0: u32) -> (res: (u128, u32))
    ensures
        ({
            let (m, s) = norm_step(sgn_val(neg, mag0 as nat), s0 as nat);
            &&& sgn_val(neg, res.0 as nat) == m
            &&& res.1 as nat == s
            &&& res.0 <= mag0
        }),
{
    let mut mag: u128 = mag0;
    let mut sc: u32 = s0;
    while sc > 0 && mag % 10 == 0
        invariant
            mag <= mag0,
            sc <= s0,
            norm_step(sgn_val(neg, mag as nat), sc as nat) == norm_step(
                sgn_val(neg, mag0 as nat),
                s0 as nat,
            ),
        decreases sc,
    {
        proof {
            lemma_neg_div10(mag as int);
            vstd::arithmetic::div_mod::lemma_div_nonincreasing(mag as int, 10);
        }
        mag = mag / 10;
        sc = sc - 1;
    }
    proof {
        if sc > 0 && mag % 10 != 0 && neg {
            lemma_neg_div10_nonzero(mag as int);
        }
    }
    (mag, sc)
}

/// A positive magnitude not divisible by ten stays indivisible when negated.
proof fn lemma_neg_div10_nonzero(mag: int)
    requires
        mag > 0,
        mag % 10 != 0,
    ensures
        (-mag) % 10 != 0,
{
    if (-mag) % 10 == 0 {
        let k = (-mag) / 10;
        vstd::arithmetic::div_mod::lemma_fundamental_div_mod(-mag, 10);
        assert(mag == (-k) * 10 + 0) by (nonlinear_arith)
            requires
                -mag == 10 * k,
        ;
        vstd::arithmetic::div_mod::lemma_fundamental_div_mod_converse(mag, 10, -k, 0);
    }
}

/// `10^e` as a `u64`, for exponents up to `MAX_SCALE`.
pub fn pow10_u64(e: u32) -> (r: u64)
    requires
        e <= MAX_SCALE,
    ensures
        r == pow10(e as nat),
{
    proof {
        assert(pow10(18) == 1000000000000000000) by {
            reveal_with_fuel(pow10, 19);
        }
    }
    let mut r: u64 = 1;
    let mut i: u32 = 0;
    while i < e
        invariant
            i <= e,
            e <= MAX_SCALE,
            r == pow10(i as nat),
            pow10(18) == 1000000000000000000,
        decreases e - i,
    {
        proof {
            lemma_pow10_mono((i + 1) as nat, 18);
        }
        r = r * 10;
        i = i + 1;
    }
    r
}

impl Decimal {
    /// The decimal with integer value `v`.
    pub fn from_i64(v: i64) -> (r: Decimal)
        ensures
            r == (Decimal { mantissa: v, scale: 0u32 }),
            r.wf(),
    {
        Decimal { mantissa: v, scale: 0 }
    }

    /// The decimal with integer value `v`, saturated to the largest
    /// representable mantissa when `v` does not fit.
    pub fn from_u64(v: u64) -> (r: Decimal)
        ensures
            r.scale == 0,
            r.wf(),
            r.mantissa == if v <= i64::MAX { v as int } else { i64::MAX as int },
    {
        if v <= i64::MAX as u64 {
            Decimal { mantissa: v as i64, scale: 0 }
        } else {
            Decimal { mantissa: i64::MAX, scale: 0 }
        }
    }

    /// Build a normalized decimal from a raw mantissa and scale. Scales above
    /// `MAX_SCALE` are rejected.
    pub fn new(mantissa: i64, scale: u32) -> (r: Option<Decimal>)
        ensures
            ({
                let (m, s) = norm_step(mantissa as int, scale as nat);
                if scale <= MAX_SCALE {
                    &&& r is Some
                    &&& r.unwrap() == (Decimal { mantissa: m as i64, scale: s as u32 })
                    &&& r.unwrap().mantissa == m
                    &&& r.unwrap().wf()
                } else {
                    r is None
                }
            }),
    {
        if scale > MAX_SCALE {
            return None;
        }
        let neg: bool = mantissa < 0;
        let mi: i128 = mantissa as i128;
        let mag0: u128 = if neg {
            (-mi) as u128
        } else {
            mi as u128
        };
        assert(sgn_val(neg, mag0 as nat) == mantissa as int);
        let (mag, sc) = normalize_parts(neg, mag0, scale);
        proof {
            lemma_norm_step_props(mantissa as int, scale as nat);
        }
        let m2: i128 = if neg {
            -(mag as i128)
        } else {
            mag as i128
        };
        Some(Decimal { mantissa: m2 as i64, scale: sc })
    }

    /// Exact addition: align both operands to the common scale, add, and
    /// normalize. Returns `None` exactly when the normalized mantissa of the
    /// true sum falls outside the `i64` range; the receiver is then meant to
    /// be left as it was.
    pub fn checked_add(self, other: Decimal) -> (r: Option<Decimal>)
        requires
            self.wf(),
            other.wf(),
        ensures
            ({
                let (m, s) = dec_add_spec(self, other);
                &&& (r is Some <==> i64::MIN <= m <= i64::MAX)
                &&& (r is Some ==> r.unwrap() == (Decimal { mantissa: m as i64, scale: s as u32 })
                    && r.unwrap().mantissa == m && r.unwrap().wf())
            }),
    {
        let s: u32 = if self.scale >= other.scale {
            self.scale
        } else {
            other.scale
        };
        let pa: u64 = pow10_u64(s - self.scale);
        let pb: u64 = pow10_u64(s - other.scale);
        proof {
            lemma_pow10_mono((s - self.scale) as nat, MAX_SCALE as nat);
            lemma_pow10_mono((s - other.scale) as nat, MAX_SCALE as nat);
            assert(pow10(18) == 1000000000000000000) by {
                reveal_with_fuel(pow10, 19);
            }
        }
        let aneg: bool = self.mantissa < 0;
        let bneg: bool = other.mantissa < 0;
        let ai: i128 = self.mantissa as i128;
        let bi: i128 = other.mantissa as i128;
        let ua: u128 = if aneg {
            (-ai) as u128
        } else {
            ai as u128
        };
        let ub: u128 = if bneg {
            (-bi) as u128
        } else {
            bi as u128
        };
        assert(ua * (pa as u128) <= 0x8000000000000000 * 1000000000000000000) by (nonlinear_arith)
            requires
                ua <= 0x8000000000000000,
                pa <= 1000000000000000000,
        ;
        assert(ub * (pb as u128) <= 0x8000000000000000 * 1000000000000000000) by (nonlinear_arith)
            requires
                ub <= 0x8000000000000000,
                pb <= 1000000000000000000,
        ;
        let sa: u128 = ua * (pa as u128);
        let sb: u128 = ub * (pb as u128);
        proof {
            assert(sgn_val(aneg, sa as nat) == self.mantissa * pow10((s - self.scale) as nat))
                by (nonlinear_arith)
                requires
                    sa == ua * (pa as u128),
                    pa == pow10((s - self.scale) as nat),
                    sgn_val(aneg, ua as nat) == self.mantissa as int,
                    sgn_val(aneg, sa as nat) == if aneg {
                        -(sa as int)
                    } else {
                        sa as int
                    },
                    sgn_val(aneg, ua as nat) == if aneg {
                        -(ua as int)
                    } else {
                        ua as int
                    },
            ;
            assert(sgn_val(bneg, sb as nat) == other.mantissa * pow10((s - other.scale) as nat))
                by (nonlinear_arith)
                requires
                    sb == ub * (pb as u128),
                    pb == pow10((s - other.scale) as nat),
                    sgn_val(bneg, ub as nat) == other.mantissa as int,
                    sgn_val(bneg, sb as nat) == if bneg {
                        -(sb as int)
                    } else {
                        sb as int
                    },
                    sgn_val(bneg, ub as nat) == if bneg {
                        -(ub as int)
                    } else {
                        ub as int
                    },
            ;
        }
        let (neg, mag): (bool, u128) = if aneg == bneg {
            (aneg, sa + sb)
        } else if sa >= sb {
            (aneg, sa - sb)
        } else {
            (bneg, sb - sa)
        };
        assert(sgn_val(neg, mag as nat) == self.scaled(s as nat) + other.scaled(s as nat));
        let (magn, scn) = normalize_parts(neg, mag, s);
        proof {
            lemma_norm_step_props(sgn_val(neg, mag as nat), s as nat);
        }
        let fits: bool = if neg {
            magn <= 0x8000000000000000u128
        } else {
            magn <= 0x7fffffffffffffffu128
        };
        if fits {
            let m2: i128 = if neg {
                -(magn as i128)
            } else {
                magn as i128
            };
            Some(Decimal { mantissa: m2 as i64, scale: scn })
        } else {
            None
        }
    }
}

} // verus!
