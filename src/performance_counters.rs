use vstd::prelude::*;
use vstd::string::StringExecFns;

verus! {

/// One reading of the hardware counter unit, as whole event counts.
#[derive(Clone, Copy, Debug, PartialEq, Eq, Structural)]
pub struct CounterReading {
    pub cycles: u64,
    pub branches: u64,
    pub missed_branches: u64,
    pub instructions: u64,
}

/// A counter snapshot held as exact fractions: each field's value is
/// `field / iterations`. A snapshot read from the hardware has
/// `iterations == 1`; dividing by a loop count scales `iterations` up.
#[derive(Clone, Copy, Debug, PartialEq, Eq, Structural)]
pub struct PerformanceCounters {
    pub cycles: i128,
    pub branches: i128,
    pub missed_branches: i128,
    pub instructions: i128,
    pub iterations: u64,
}

pub open spec fn fits_i128(x: int) -> bool {
    i128::MIN <= x <= i128::MAX
}

/// Numerator of `e / ed - s / sd`: shared divisors are kept as they are.
pub open spec fn diff_numerator(e: int, ed: int, s: int, sd: int) -> int {
    if ed == sd {
        e - s
    } else {
        e * sd - s * ed
    }
}

pub open spec fn diff_divisor(ed: int, sd: int) -> int {
    if ed == sd {
        ed
    } else {
        ed * sd
    }
}

/// Every intermediate and final value of a field's difference fits in `i128`.
pub open spec fn diff_fits(e: int, ed: int, s: int, sd: int) -> bool {
    if ed == sd {
        fits_i128(e - s)
    } else {
        fits_i128(e * sd) && fits_i128(s * ed) && fits_i128(e * sd - s * ed)
    }
}

impl PerformanceCounters {
    pub open spec fn wf(&self) -> bool {
        self.iterations >= 1
    }

    /// `end - start` is representable without overflow.
    pub open spec fn can_subtract(end: Self, start: Self) -> bool {
        let (ed, sd) = (end.iterations as int, start.iterations as int);
        &&& end.wf()
        &&& start.wf()
        &&& diff_divisor(ed, sd) <= u64::MAX
        &&& diff_fits(end.cycles as int, ed, start.cycles as int, sd)
        &&& diff_fits(end.branches as int, ed, start.branches as int, sd)
        &&& diff_fits(end.missed_branches as int, ed, start.missed_branches as int, sd)
        &&& diff_fits(end.instructions as int, ed, start.instructions as int, sd)
    }

    pub open spec fn subtract_spec(end: Self, start: Self) -> Self {
        let (ed, sd) = (end.iterations as int, start.iterations as int);
        PerformanceCounters {
            cycles: diff_numerator(end.cycles as int, ed, start.cycles as int, sd) as i128,
            branches: diff_numerator(end.branches as int, ed, start.branches as int, sd) as i128,
            missed_branches: diff_numerator(
                end.missed_branches as int,
                ed,
                start.missed_branches as int,
                sd,
            ) as i128,
            instructions: diff_numerator(
                end.instructions as int,
                ed,
                start.instructions as int,
                sd,
            ) as i128,
            iterations: diff_divisor(ed, sd) as u64,
        }
    }

    pub open spec fn divide_spec(self, n: int) -> Self {
        PerformanceCounters { iterations: (self.iterations * n) as u64, ..self }
    }

    pub open spec fn from_reading(r: CounterReading) -> Self {
        PerformanceCounters {
            cycles: r.cycles as i128,
            branches: r.branches as i128,
            missed_branches: r.missed_branches as i128,
            instructions: r.instructions as i128,
            iterations: 1,
        }
    }

    /// Component-wise difference `end - start`, with no clamping at zero.
    pub fn subtract(end: &Self, start: &Self) -> (r: Self)
        requires
            Self::can_subtract(*end, *start),
        ensures
            r == Self::subtract_spec(*end, *start),
            r.wf(),
    {
        if end.iterations == start.iterations {
            PerformanceCounters {
                cycles: end.cycles - start.cycles,
                branches: end.branches - start.branches,
                missed_branches: end.missed_branches - start.missed_branches,
                instructions: end.instructions - start.instructions,
                iterations: end.iterations,
            }
        } else {
            let ed = end.iterations as i128;
            let sd = start.iterations as i128;
            proof {
                assert(end.iterations * start.iterations >= 1) by (nonlinear_arith)
                    requires
                        end.iterations >= 1,
                        start.iterations >= 1,
                ;
            }
            PerformanceCounters {
                cycles: end.cycles * sd - start.cycles * ed,
                branches: end.branches * sd - start.branches * ed,
                missed_branches: end.missed_branches * sd - start.missed_branches * ed,
                instructions: end.instructions * sd - start.instructions * ed,
                iterations: end.iterations * start.iterations,
            }
        }
    }

    /// Component-wise division by the count `n`, exact: the totals stay and
    /// the number of iterations they are spread over grows by `n`.
    pub fn divide(&self, n: usize) -> (r: Self)
        requires
            self.wf(),
            n >= 1,
            self.iterations * n <= u64::MAX,
        ensures
            r == self.divide_spec(n as int),
            r.wf(),
    {
        proof {
            assert(self.iterations * n >= 1) by (nonlinear_arith)
                requires
                    self.iterations >= 1,
                    n >= 1,
            ;
        }
        PerformanceCounters { iterations: self.iterations * (n as u64), ..*self }
    }
}

impl PerformanceCounters {
    /// Whether both snapshots have the same value in every field, whatever
    /// the number of iterations each is spread over.
    pub fn same_values(&self, other: &Self) -> (r: bool)
        requires
            can_compare(*self, *other),
        ensures
            r == scaled_equals(*self, 1, *other),
    {
        let sd = self.iterations as i128;
        let od = other.iterations as i128;
        self.cycles * od == other.cycles * sd && self.branches * od == other.branches * sd
            && self.missed_branches * od == other.missed_branches * sd && self.instructions * od
            == other.instructions * sd
    }
}

impl From<CounterReading> for PerformanceCounters {
    fn from(counters: CounterReading) -> (r: Self)
        ensures
            r == Self::from_reading(counters),
    {
        PerformanceCounters {
            cycles: counters.cycles as i128,
            branches: counters.branches as i128,
            missed_branches: counters.missed_branches as i128,
            instructions: counters.instructions as i128,
            iterations: 1,
        }
    }
}

impl vstd::std_specs::convert::FromSpecImpl<CounterReading> for PerformanceCounters {
    open spec fn obeys_from_spec() -> bool {
        true
    }

    open spec fn from_spec(v: CounterReading) -> Self {
        Self::from_reading(v)
    }
}

pub open spec fn digit_char(d: nat) -> char {
    seq!['0', '1', '2', '3', '4', '5', '6', '7', '8', '9'][d as int]
}

/// The decimal digits of `n`, most significant first, without leading zeros.
pub open spec fn decimal(n: nat) -> Seq<char>
    decreases n,
{
    if n < 10 {
        seq![digit_char(n)]
    } else {
        decimal(n / 10) + seq![digit_char(n % 10)]
    }
}

pub open spec fn abs(x: int) -> nat {
    if x < 0 {
        (-x) as nat
    } else {
        x as nat
    }
}

/// `num / den` rounded to the nearest whole number, ties to even.
pub open spec fn round_half_even(num: nat, den: nat) -> nat {
    let h = num / den;
    let r = num % den;
    if 2 * r > den || (2 * r == den && h % 2 == 1) {
        h + 1
    } else {
        h
    }
}

/// Text of `(a - b) / a * 100` with two decimals, where `a = an / ad` and
/// `b = bn / bd`. A zero baseline gives `inf`, `-inf` or `NaN`, as an
/// IEEE division by zero would.
pub open spec fn percent_text(an: int, ad: int, bn: int, bd: int) -> Seq<char> {
    let q = an * bd;
    let p = q - bn * ad;
    if an == 0 {
        if p > 0 {
            "inf"@
        } else if p < 0 {
            "-inf"@
        } else {
            "NaN"@
        }
    } else {
        let negative = p != 0 && ((p < 0) != (q < 0));
        let h = round_half_even(abs(10000 * p), abs(q));
        let m = h % 100;
        (if negative {
            "-"@
        } else {
            ""@
        }) + decimal(h / 100) + "."@ + seq![digit_char(m / 10), digit_char(m % 10)]
    }
}

pub open spec fn compare_bound() -> int {
    1267650600228229401496703205376
}

pub open spec fn field_comparable(an: int, ad: int, bn: int, bd: int) -> bool {
    abs(an * bd) <= compare_bound() && abs(bn * ad) <= compare_bound()
}

/// Text of the comparison of `b` against the baseline `a`, one percentage per field.
pub open spec fn compare_text(a: PerformanceCounters, b: PerformanceCounters) -> Seq<char> {
    let (ad, bd) = (a.iterations as int, b.iterations as int);
    "cycles: "@ + percent_text(a.cycles as int, ad, b.cycles as int, bd) + "% branches: "@
        + percent_text(a.branches as int, ad, b.branches as int, bd) + "% missed_branches: "@
        + percent_text(a.missed_branches as int, ad, b.missed_branches as int, bd)
        + "% instructions: "@ + percent_text(a.instructions as int, ad, b.instructions as int, bd)
        + "%"@
}

pub open spec fn can_compare(a: PerformanceCounters, b: PerformanceCounters) -> bool {
    let (ad, bd) = (a.iterations as int, b.iterations as int);
    &&& a.wf()
    &&& b.wf()
    &&& field_comparable(a.cycles as int, ad, b.cycles as int, bd)
    &&& field_comparable(a.branches as int, ad, b.branches as int, bd)
    &&& field_comparable(a.missed_branches as int, ad, b.missed_branches as int, bd)
    &&& field_comparable(a.instructions as int, ad, b.instructions as int, bd)
}

fn digit_str(d: u128) -> (r: &'static str)
    requires
        d < 10,
    ensures
        r@ == seq![digit_char(d as nat)],
{
    proof {
        reveal_strlit("0");
        reveal_strlit("1");
        reveal_strlit("2");
        reveal_strlit("3");
        reveal_strlit("4");
        reveal_strlit("5");
        reveal_strlit("6");
        reveal_strlit("7");
        reveal_strlit("8");
        reveal_strlit("9");
    }
    match d {
        0 => "0",
        1 => "1",
        2 => "2",
        3 => "3",
        4 => "4",
        5 => "5",
        6 => "6",
        7 => "7",
        8 => "8",
        _ => "9",
    }
}

fn push_decimal(s: &mut String, n: u128)
    ensures
        final(s)@ == old(s)@ + decimal(n as nat),
    decreases n,
{
    if n >= 10 {
        push_decimal(s, n / 10);
    }
    s.append(digit_str(n % 10));
    proof {
        if n >= 10 {
            assert(final(s)@ =~= old(s)@ + decimal(n as nat));
        } else {
            assert(final(s)@ =~= old(s)@ + decimal(n as nat));
        }
    }
}

fn push_percent(s: &mut String, an: i128, ad: u64, bn: i128, bd: u64)
    requires
        ad >= 1,
        bd >= 1,
        field_comparable(an as int, ad as int, bn as int, bd as int),
    ensures
        final(s)@ == old(s)@ + percent_text(an as int, ad as int, bn as int, bd as int),
{
    let q = an * (bd as i128);
    let p = q - bn * (ad as i128);
    if an == 0 {
        if p > 0 {
            s.append("inf");
        } else if p < 0 {
            s.append("-inf");
        } else {
            s.append("NaN");
        }
    } else {
        let negative = p != 0 && ((p < 0) != (q < 0));
        let num: u128 = if p < 0 {
            (-(10000 * p)) as u128
        } else {
            (10000 * p) as u128
        };
        let den: u128 = if q < 0 {
            (-q) as u128
        } else {
            q as u128
        };
        proof {
            assert(an * bd != 0) by (nonlinear_arith)
                requires
                    an != 0,
                    bd >= 1,
            ;
        }
        let h0 = num / den;
        let r = num % den;
        let h = if 2 * r > den || (2 * r == den && h0 % 2 == 1) {
            h0 + 1
        } else {
            h0
        };
        if negative {
            s.append("-");
        }
        push_decimal(s, h / 100);
        s.append(".");
        let m = h % 100;
        s.append(digit_str(m / 10));
        s.append(digit_str(m % 10));
        proof {
            reveal_strlit("");
            let ghost pi = an * bd - bn * ad;
            assert(num as nat == abs(10000 * pi));
            assert(den as nat == abs(an * bd));
            assert(h as nat == round_half_even(num as nat, den as nat));
            assert(final(s)@ =~= old(s)@ + percent_text(an as int, ad as int, bn as int, bd as int));
        }
    }
}

/// Text comparing `a` against `b` field by field: `(a - b) / a * 100` with
/// two decimals, computed exactly and rounded half to even. A field that is
/// zero in `a` reads `inf`, `-inf` or `NaN`.
pub fn compare_perf_counters(a: &PerformanceCounters, b: &PerformanceCounters) -> (r: String)
    requires
        can_compare(*a, *b),
    ensures
        r@ == compare_text(*a, *b),
{
    let mut s = String::new();
    s.append("cycles: ");
    push_percent(&mut s, a.cycles, a.iterations, b.cycles, b.iterations);
    s.append("% branches: ");
    push_percent(&mut s, a.branches, a.iterations, b.branches, b.iterations);
    s.append("% missed_branches: ");
    push_percent(&mut s, a.missed_branches, a.iterations, b.missed_branches, b.iterations);
    s.append("% instructions: ");
    push_percent(&mut s, a.instructions, a.iterations, b.instructions, b.iterations);
    s.append("%");
    proof {
        assert(s@ =~= compare_text(*a, *b));
    }
    s
}

/// `x` scaled by `k` has the same value as `y` in every field:
/// `x.f / x.iterations * k == y.f / y.iterations`.
pub open spec fn scaled_equals(x: PerformanceCounters, k: int, y: PerformanceCounters) -> bool {
    let (xd, yd) = (x.iterations as int, y.iterations as int);
    &&& x.cycles * k * yd == y.cycles * xd
    &&& x.branches * k * yd == y.branches * xd
    &&& x.missed_branches * k * yd == y.missed_branches * xd
    &&& x.instructions * k * yd == y.instructions * xd
}

/// Subtracting a snapshot from itself gives zero in every field.
pub proof fn lemma_subtract_self_is_zero(x: PerformanceCounters)
    requires
        x.wf(),
    ensures
        PerformanceCounters::can_subtract(x, x),
        PerformanceCounters::subtract_spec(x, x).cycles == 0,
        PerformanceCounters::subtract_spec(x, x).branches == 0,
        PerformanceCounters::subtract_spec(x, x).missed_branches == 0,
        PerformanceCounters::subtract_spec(x, x).instructions == 0,
{
}

proof fn lemma_mul_reorder(f: int, n: int, d: int)
    ensures
        f * n * d == f * (d * n),
{
    assert(f * n * d == f * (d * n)) by (nonlinear_arith);
}

/// Dividing the difference `end - start` by `n` and multiplying back by `n`
/// gives the difference exactly.
pub proof fn lemma_divide_then_multiply_back(
    end: PerformanceCounters,
    start: PerformanceCounters,
    n: int,
)
    requires
        PerformanceCounters::can_subtract(end, start),
        n >= 1,
        PerformanceCounters::subtract_spec(end, start).iterations * n <= u64::MAX,
    ensures
        scaled_equals(
            PerformanceCounters::subtract_spec(end, start).divide_spec(n),
            n,
            PerformanceCounters::subtract_spec(end, start),
        ),
{
    let d = PerformanceCounters::subtract_spec(end, start);
    let q = d.divide_spec(n);
    assert(q.iterations == d.iterations * n);
    let dd = d.iterations as int;
    lemma_mul_reorder(d.cycles as int, n, dd);
    lemma_mul_reorder(d.branches as int, n, dd);
    lemma_mul_reorder(d.missed_branches as int, n, dd);
    lemma_mul_reorder(d.instructions as int, n, dd);
}

proof fn lemma_percent_of_self(x: int, d: int)
    requires
        x != 0,
        d >= 1,
    ensures
        percent_text(x, d, x, d) == "0.00"@,
{
    reveal_strlit("0.00");
    reveal_strlit(".");
    reveal_strlit("");
    assert(x * d != 0) by (nonlinear_arith)
        requires
            x != 0,
            d >= 1,
    ;
    assert(x * d - x * d == 0);
    assert(round_half_even(abs(10000 * (x * d - x * d)), abs(x * d)) == 0);
    assert(decimal(0) == seq!['0']);
    assert(percent_text(x, d, x, d) =~= "0.00"@);
}

/// Comparing a snapshot with itself reports no change in any field, provided
/// no field of the baseline is zero.
pub proof fn lemma_compare_self_is_zero(a: PerformanceCounters)
    requires
        a.wf(),
        a.cycles != 0,
        a.branches != 0,
        a.missed_branches != 0,
        a.instructions != 0,
    ensures
        compare_text(a, a)
            == "cycles: 0.00% branches: 0.00% missed_branches: 0.00% instructions: 0.00%"@,
{
    let d = a.iterations as int;
    lemma_percent_of_self(a.cycles as int, d);
    lemma_percent_of_self(a.branches as int, d);
    lemma_percent_of_self(a.missed_branches as int, d);
    lemma_percent_of_self(a.instructions as int, d);
    reveal_strlit("cycles: 0.00% branches: 0.00% missed_branches: 0.00% instructions: 0.00%");
    reveal_strlit("cycles: ");
    reveal_strlit("% branches: ");
    reveal_strlit("% missed_branches: ");
    reveal_strlit("% instructions: ");
    reveal_strlit("%");
    reveal_strlit("0.00");
    assert(compare_text(a, a)
        =~= "cycles: 0.00% branches: 0.00% missed_branches: 0.00% instructions: 0.00%"@);
}

} // verus!
