use vstd::arithmetic::div_mod::{lemma_div_is_ordered, lemma_fundamental_div_mod, lemma_mod_multiples_basic};
use vstd::prelude::*;

use crate::error::{Error, Result};
use crate::lenticular::{ProcessOptions, SourceParams};
use crate::mapping::{lemma_width_sum_nonneg, width_max, width_sum};
use crate::planner::{
    all_widths_positive, plan_matches, plan_ok, plan_size, planned_height, planned_width, sizing_den,
    widths_positive,
    OutputInfo,
};

verus! {

/// The number of widenings the search tries before it gives up.
pub const MAX_SEARCH_STEPS: u32 = 100000;

/// Greatest common divisor, by Euclid's algorithm.
pub open spec fn gcd(a: nat, b: nat) -> nat
    decreases b,
{
    if b == 0 {
        a
    } else {
        gcd(b, a % b)
    }
}

/// Greatest common divisor of a sequence of widths (0 for none).
pub open spec fn seq_gcd(s: Seq<u32>) -> nat
    decreases s.len(),
{
    if s.len() == 0 {
        0
    } else {
        gcd(seq_gcd(s.drop_last()), s.last() as nat)
    }
}

/// `x` is a multiple of `d`.
pub open spec fn divides(d: nat, x: nat) -> bool {
    if d == 0 {
        x == 0
    } else {
        x % d == 0
    }
}

/// A multiple of `d` is `d` times its quotient.
proof fn lemma_multiple(d: nat, x: nat)
    requires
        d > 0,
        x % d == 0,
    ensures
        x == (x / d) * d,
{
    lemma_fundamental_div_mod(x as int, d as int);
    assert(x == (x / d) * d) by (nonlinear_arith)
        requires
            x == d * (x / d) + x % d,
            x % d == 0,
    ;
}

proof fn lemma_divides_sum(d: nat, q: nat, b: nat, r: nat)
    requires
        divides(d, b),
        divides(d, r),
    ensures
        divides(d, q * b + r),
{
    if d > 0 {
        lemma_multiple(d, b);
        lemma_multiple(d, r);
        let k1 = b / d;
        let k2 = r / d;
        assert(q * b + r == (q * k1 + k2) * d) by (nonlinear_arith)
            requires
                b == k1 * d,
                r == k2 * d,
        ;
        lemma_mod_multiples_basic((q * k1 + k2) as int, d as int);
    } else {
        assert(q * b + r == 0) by (nonlinear_arith)
            requires
                b == 0,
                r == 0,
        ;
    }
}

proof fn lemma_divides_trans(a: nat, b: nat, c: nat)
    requires
        divides(a, b),
        divides(b, c),
    ensures
        divides(a, c),
{
    if b == 0 {
        assert(c == 0);
        if a > 0 {
            assert(0nat % a == 0);
        }
    } else {
        assert(a > 0);
        lemma_multiple(a, b);
        lemma_multiple(b, c);
        let k1 = b / a;
        let k2 = c / b;
        assert(c == (k2 * k1) * a) by (nonlinear_arith)
            requires
                b == k1 * a,
                c == k2 * b,
        ;
        lemma_mod_multiples_basic((k2 * k1) as int, a as int);
    }
}

/// The gcd divides both arguments, and is positive unless both are 0.
pub proof fn lemma_gcd_divides(a: nat, b: nat)
    ensures
        divides(gcd(a, b), a),
        divides(gcd(a, b), b),
        (a > 0 || b > 0) ==> gcd(a, b) > 0,
    decreases b,
{
    if b == 0 {
        if a > 0 {
            lemma_mod_multiples_basic(1, a as int);
            lemma_mod_multiples_basic(0, a as int);
        }
    } else {
        let r = a % b;
        lemma_gcd_divides(b, r);
        let g = gcd(b, r);
        lemma_fundamental_div_mod(a as int, b as int);
        let q = a / b;
        assert(a == q * b + r) by (nonlinear_arith)
            requires
                a == b * (a / b) + a % b,
                q == a / b,
                r == a % b,
        ;
        lemma_divides_sum(g, q, b, r);
    }
}

/// The gcd of a sequence divides each of its widths, and is positive when
/// some width is.
pub proof fn lemma_seq_gcd_divides(s: Seq<u32>)
    ensures
        forall|i: int| 0 <= i < s.len() ==> divides(seq_gcd(s), #[trigger] s[i] as nat),
        (exists|i: int| 0 <= i < s.len() && #[trigger] s[i] > 0) ==> seq_gcd(s) > 0,
    decreases s.len(),
{
    if s.len() > 0 {
        let t = s.drop_last();
        lemma_seq_gcd_divides(t);
        lemma_gcd_divides(seq_gcd(t), s.last() as nat);
        assert forall|i: int| 0 <= i < s.len() implies divides(seq_gcd(s), #[trigger] s[i] as nat) by {
            if i < s.len() - 1 {
                assert(s[i] == t[i]);
                lemma_divides_trans(seq_gcd(s), seq_gcd(t), s[i] as nat);
            }
        }
        if exists|i: int| 0 <= i < s.len() && #[trigger] s[i] > 0 {
            let i = choose|i: int| 0 <= i < s.len() && #[trigger] s[i] > 0;
            if i < s.len() - 1 {
                assert(t[i] > 0);
            }
        }
    }
}

/// Greatest common divisor of two integers.
pub fn gcd_u32(a: u32, b: u32) -> (r: u32)
    ensures
        r == gcd(a as nat, b as nat),
{
    let mut x: u32 = a;
    let mut y: u32 = b;
    while y != 0
        invariant
            gcd(x as nat, y as nat) == gcd(a as nat, b as nat),
        decreases y,
    {
        let t: u32 = x % y;
        x = y;
        y = t;
    }
    x
}

/// Greatest common divisor of all widths.
pub fn widths_gcd(widths: &[u32]) -> (r: u32)
    ensures
        r == seq_gcd(widths@),
{
    let mut g: u32 = 0;
    let mut i: usize = 0;
    while i < widths.len()
        invariant
            i <= widths@.len(),
            g == seq_gcd(widths@.take(i as int)),
        decreases widths@.len() - i,
    {
        assert(widths@.take(i as int + 1).drop_last() =~= widths@.take(i as int));
        g = gcd_u32(g, widths[i]);
        i = i + 1;
    }
    assert(widths@.take(i as int) =~= widths@);
    g
}

/// Width `i` after `k` widenings: each widening adds `w0[i] / gcd(w0)`.
pub open spec fn widened(w0: Seq<u32>, k: int, i: int) -> int {
    w0[i] + k * (w0[i] as int / seq_gcd(w0) as int)
}

/// After `k` widenings every width still fits `u32`.
pub open spec fn widened_fits(w0: Seq<u32>, k: int) -> bool {
    forall|i: int| 0 <= i < w0.len() ==> #[trigger] widened(w0, k, i) <= u32::MAX
}

/// The widths after `k` widenings.
pub open spec fn widened_seq(w0: Seq<u32>, k: int) -> Seq<u32> {
    Seq::new(w0.len(), |i: int| widened(w0, k, i) as u32)
}

/// Step `k` of the search has widths that fit and can be planned.
pub open spec fn step_plans(
    baseline: SourceParams,
    w0: Seq<u32>,
    k: int,
    lpi: int,
    width_um: int,
) -> bool {
    widened_fits(w0, k) && plan_ok(baseline, widened_seq(w0, k), lpi, width_um)
}

/// Step `k` of the search plans a composite shorter than the baseline.
pub open spec fn step_short(
    baseline: SourceParams,
    w0: Seq<u32>,
    k: int,
    lpi: int,
    width_um: int,
) -> bool {
    &&& step_plans(baseline, w0, k, lpi, width_um)
    &&& planned_height(
        lpi,
        width_um,
        widened_seq(w0, k),
        baseline.width as int,
        baseline.height as int,
    ) < baseline.height
}

/// Widening keeps the ratios between the widths: after `k` steps width `i`
/// is `w0[i] * (g + k) / g`, with `g` the gcd of the initial widths, an
/// integer; so `widths[i] / widths[j]` stays `w0[i] / w0[j]`.
pub proof fn lemma_widening_keeps_ratio(w0: Seq<u32>, k: nat, i: int, j: int)
    requires
        w0.len() > 0,
        widths_positive(w0),
        0 <= i < w0.len(),
        0 <= j < w0.len(),
    ensures
        widened(w0, k as int, i) * seq_gcd(w0) == w0[i] * (seq_gcd(w0) + k),
        widened(w0, k as int, i) * w0[j] == widened(w0, k as int, j) * w0[i],
{
    lemma_seq_gcd_divides(w0);
    assert(w0[0] > 0);
    let g = seq_gcd(w0);
    lemma_multiple(g, w0[i] as nat);
    lemma_multiple(g, w0[j] as nat);
    let di = w0[i] as int / g as int;
    let dj = w0[j] as int / g as int;
    assert(widened(w0, k as int, i) * g == w0[i] * (g + k) && widened(w0, k as int, i) * w0[j]
        == widened(w0, k as int, j) * w0[i]) by (nonlinear_arith)
        requires
            w0[i] as int == di * g,
            w0[j] as int == dj * g,
            widened(w0, k as int, i) == w0[i] + k * di,
            widened(w0, k as int, j) == w0[j] + k * dj,
    ;
}

/// The largest width is at least each width.
proof fn lemma_width_max_ge(s: Seq<u32>, i: int)
    requires
        0 <= i < s.len(),
    ensures
        width_max(s) >= s[i],
    decreases s.len(),
{
    if i < s.len() - 1 {
        lemma_width_max_ge(s.drop_last(), i);
    }
}

/// Widening always reaches the baseline height: once `k` is at least
/// `10^12 * baseline.width`, a step whose widths fit plans a composite at
/// least as tall as the baseline.
pub proof fn lemma_widening_reaches_height(
    baseline: SourceParams,
    w0: Seq<u32>,
    k: nat,
    lpi: int,
    width_um: int,
)
    requires
        w0.len() > 0,
        widths_positive(w0),
        lpi > 0,
        width_um > 0,
        baseline.width > 0,
        widened_fits(w0, k as int),
        k >= sizing_den() * baseline.width,
    ensures
        planned_height(
            lpi,
            width_um,
            widened_seq(w0, k as int),
            baseline.width as int,
            baseline.height as int,
        ) >= baseline.height,
{
    lemma_seq_gcd_divides(w0);
    assert(w0[0] > 0);
    let g = seq_gcd(w0);
    let d0 = w0[0] as int / g as int;
    lemma_multiple(g, w0[0] as nat);
    assert(d0 >= 1) by (nonlinear_arith)
        requires
            w0[0] as int == d0 * g,
            w0[0] > 0,
            g > 0,
    ;
    let ws = widened_seq(w0, k as int);
    assert(widened(w0, k as int, 0) <= u32::MAX);
    assert(ws[0] as int == widened(w0, k as int, 0));
    lemma_width_max_ge(ws, 0);
    let m = width_max(ws);
    let bw = baseline.width as int;
    let bh = baseline.height as int;
    let den = sizing_den() * bw;
    assert(m >= k) by (nonlinear_arith)
        requires
            m >= w0[0] + k * d0,
            d0 >= 1,
            k >= 0,
            w0[0] >= 0,
    ;
    assert(lpi * m * width_um * 3937 >= den) by (nonlinear_arith)
        requires
            lpi >= 1,
            width_um >= 1,
            m >= k,
            k >= den,
            den >= 0,
    ;
    assert((bh * (lpi * m * width_um * 3937)) / den >= bh) by (nonlinear_arith)
        requires
            lpi * m * width_um * 3937 >= den,
            den > 0,
            bh >= 0,
    ;
}

/// Pointwise larger widths have a larger sum and maximum.
proof fn lemma_width_stats_monotone(a: Seq<u32>, b: Seq<u32>)
    requires
        a.len() == b.len(),
        forall|i: int| 0 <= i < a.len() ==> #[trigger] a[i] <= b[i],
    ensures
        width_sum(a) <= width_sum(b),
        width_max(a) <= width_max(b),
    decreases a.len(),
{
    if a.len() > 0 {
        let (a2, b2) = (a.drop_last(), b.drop_last());
        assert forall|i: int| 0 <= i < a2.len() implies #[trigger] a2[i] <= b2[i] by {
            assert(a[i] <= b[i]);
        }
        lemma_width_stats_monotone(a2, b2);
        assert(a.last() <= b.last());
    }
}

/// A step that can be planned makes every earlier step plannable: widths,
/// their sum and maximum, and the planned sizes only grow with the step.
pub proof fn lemma_step_plans_monotone(
    baseline: SourceParams,
    w0: Seq<u32>,
    k1: int,
    k2: int,
    lpi: int,
    width_um: int,
)
    requires
        w0.len() > 0,
        widths_positive(w0),
        0 <= k1 <= k2,
        step_plans(baseline, w0, k2, lpi, width_um),
    ensures
        step_plans(baseline, w0, k1, lpi, width_um),
{
    lemma_seq_gcd_divides(w0);
    assert(w0[0] > 0);
    let g = seq_gcd(w0) as int;
    assert forall|i: int| 0 <= i < w0.len() implies #[trigger] widened(w0, k1, i) <= widened(w0, k2, i)
        && widened(w0, k1, i) >= w0[i] by {
        let d = w0[i] as int / g;
        assert(d >= 0) by (nonlinear_arith)
            requires
                g > 0,
                w0[i] >= 0,
                d == w0[i] as int / g,
        ;
        assert(k1 * d <= k2 * d && k1 * d >= 0) by (nonlinear_arith)
            requires
                0 <= k1 <= k2,
                d >= 0,
        ;
    }
    let a = widened_seq(w0, k1);
    let b = widened_seq(w0, k2);
    assert forall|i: int| 0 <= i < w0.len() implies #[trigger] widened(w0, k1, i) <= u32::MAX by {
        assert(widened(w0, k2, i) <= u32::MAX);
    }
    assert forall|i: int| 0 <= i < a.len() implies #[trigger] a[i] <= b[i] by {
        assert(widened(w0, k1, i) <= widened(w0, k2, i));
        assert(widened(w0, k2, i) <= u32::MAX);
    }
    assert forall|i: int| 0 <= i < a.len() implies #[trigger] a[i] > 0 by {
        assert(widened(w0, k1, i) >= w0[i]);
        assert(w0[i] > 0);
    }
    lemma_width_stats_monotone(a, b);
    lemma_width_sum_nonneg(a);
    lemma_width_max_ge(a, 0);
    let (sa, sb, ma, mb) = (width_sum(a), width_sum(b), width_max(a), width_max(b));
    let den = sizing_den();
    assert(lpi * sa * width_um * 3937 <= lpi * sb * width_um * 3937 && lpi * ma * width_um * 3937
        <= lpi * mb * width_um * 3937) by (nonlinear_arith)
        requires
            lpi > 0,
            width_um > 0,
            0 <= sa <= sb,
            0 <= ma <= mb,
    ;
    lemma_div_is_ordered(lpi * sa * width_um * 3937, lpi * sb * width_um * 3937, den);
    let bw = baseline.width as int;
    let bh = baseline.height as int;
    assert(bh * (lpi * ma * width_um * 3937) <= bh * (lpi * mb * width_um * 3937)) by (nonlinear_arith)
        requires
            bh >= 0,
            lpi * ma * width_um * 3937 <= lpi * mb * width_um * 3937,
    ;
    assert(den * bw > 0) by (nonlinear_arith)
        requires
            den > 0,
            bw > 0,
    ;
    lemma_div_is_ordered(bh * (lpi * ma * width_um * 3937), bh * (lpi * mb * width_um * 3937), den * bw);
    assert(planned_width(lpi, width_um, a) <= planned_width(lpi, width_um, b));
    assert(planned_height(lpi, width_um, a, bw, bh) <= planned_height(lpi, width_um, b, bw, bh));
}

/// Every step before the first one that cannot be planned falls short, so
/// no step at all is both plannable and tall enough.
proof fn lemma_no_tall_step(
    baseline: SourceParams,
    w0: Seq<u32>,
    kf: int,
    lpi: int,
    width_um: int,
)
    requires
        w0.len() > 0,
        widths_positive(w0),
        0 <= kf,
        !step_plans(baseline, w0, kf, lpi, width_um),
        forall|k2: int| 0 <= k2 < kf ==> #[trigger] step_short(baseline, w0, k2, lpi, width_um),
    ensures
        forall|k: int|
            0 <= k && step_plans(baseline, w0, k, lpi, width_um) ==> #[trigger] step_short(
                baseline,
                w0,
                k,
                lpi,
                width_um,
            ),
{
    assert forall|k: int|
        0 <= k && step_plans(baseline, w0, k, lpi, width_um) implies #[trigger] step_short(
        baseline,
        w0,
        k,
        lpi,
        width_um,
    ) by {
        if k >= kf {
            lemma_step_plans_monotone(baseline, w0, kf, k, lpi, width_um);
        }
    }
}

/// The search found `ws` and `info` at step `k`: the first step that can
/// be planned and is tall enough, every earlier one falling short.
pub open spec fn search_found(
    baseline: SourceParams,
    w0: Seq<u32>,
    lpi: int,
    width_um: int,
    ws: Seq<u32>,
    info: OutputInfo,
) -> bool {
    exists|k: int|
        0 <= k < MAX_SEARCH_STEPS && ws == widened_seq(w0, k) && step_plans(
            baseline,
            w0,
            k,
            lpi,
            width_um,
        ) && !step_short(baseline, w0, k, lpi, width_um) && plan_matches(
            info,
            baseline,
            ws,
            lpi,
            width_um,
        ) && forall|k2: int| 0 <= k2 < k ==> #[trigger] step_short(baseline, w0, k2, lpi, width_um)
}

/// Every step within the bound can be planned and falls short.
pub open spec fn search_exhausted(baseline: SourceParams, w0: Seq<u32>, lpi: int, width_um: int) -> bool {
    forall|k: int| 0 <= k < MAX_SEARCH_STEPS ==> #[trigger] step_short(baseline, w0, k, lpi, width_um)
}

/// Some step within the bound cannot be planned, and every earlier one
/// falls short.
pub open spec fn search_unplannable(
    baseline: SourceParams,
    w0: Seq<u32>,
    lpi: int,
    width_um: int,
) -> bool {
    exists|k: int|
        0 <= k < MAX_SEARCH_STEPS && !step_plans(baseline, w0, k, lpi, width_um) && forall|k2: int|
            0 <= k2 < k ==> #[trigger] step_short(baseline, w0, k2, lpi, width_um)
}

/// The initial widths are valid and some step within the bound can be
/// planned and is tall enough.
pub open spec fn search_can_succeed(
    baseline: SourceParams,
    w0: Seq<u32>,
    lpi: int,
    width_um: int,
) -> bool {
    &&& w0.len() > 0
    &&& widths_positive(w0)
    &&& exists|k: int|
        0 <= k < MAX_SEARCH_STEPS && step_plans(baseline, w0, k, lpi, width_um) && !step_short(
            baseline,
            w0,
            k,
            lpi,
            width_um,
        )
}

/// Widens the stripe widths by their reduced ratio until the planned
/// composite is at least as tall as the baseline image.
///
/// Step `k` tries `widened_seq(stripe_widths, k)`; the search returns the
/// widths and plan of the first step whose composite is tall enough, fails
/// with `InvalidInput` at the first step that cannot be planned, and with
/// `SearchExhausted` when `MAX_SEARCH_STEPS` steps all fall short.
pub fn search_stripe_widths(
    baseline: SourceParams,
    stripe_widths: &[u32],
    options: &ProcessOptions,
) -> (r: Result<(Vec<u32>, OutputInfo)>)
    ensures
        ({
            let w0 = stripe_widths@;
            let lpi = options.lpi as int;
            let um = options.physical_width_um as int;
            &&& r is Ok ==> search_found(baseline, w0, lpi, um, r->Ok_0.0@, r->Ok_0.1)
            &&& r is Ok ==> r->Ok_0.1.height >= baseline.height
            &&& r is Ok ==> forall|i: int, j: int|
                0 <= i < w0.len() && 0 <= j < w0.len() ==> r->Ok_0.0@[i] * w0[j]
                    == #[trigger] r->Ok_0.0@[j] * #[trigger] w0[i]
            &&& (r is Err && r->Err_0 is SearchExhausted) <==> search_exhausted(baseline, w0, lpi, um)
            &&& (r is Err && r->Err_0 is InvalidInput) ==> search_unplannable(baseline, w0, lpi, um)
            &&& r is Err ==> (r->Err_0 is InvalidInput || r->Err_0 is SearchExhausted)
            &&& search_can_succeed(baseline, w0, lpi, um) ==> r is Ok
        }),
{
    let ghost w0 = stripe_widths@;
    let ghost lpi = options.lpi as int;
    let ghost um = options.physical_width_um as int;
    assert(widened_seq(w0, 0) =~= w0);
    if stripe_widths.len() == 0 || !all_widths_positive(stripe_widths) {
        assert(!step_plans(baseline, w0, 0, lpi, um));
        assert(!step_short(baseline, w0, 0, lpi, um));
        return Err(Error::InvalidInput("stripe widths must be positive and non-empty".to_string()));
    }
    let g: u32 = widths_gcd(stripe_widths);
    proof {
        lemma_seq_gcd_divides(w0);
        assert(w0[0] > 0);
    }
    let mut deltas: Vec<u32> = Vec::new();
    let mut cur: Vec<u32> = Vec::new();
    let mut i: usize = 0;
    while i < stripe_widths.len()
        invariant
            w0 == stripe_widths@,
            g == seq_gcd(w0),
            g > 0,
            i <= w0.len(),
            deltas@.len() == i,
            cur@ =~= w0.take(i as int),
            forall|j: int| 0 <= j < i ==> #[trigger] deltas@[j] == w0[j] as int / (g as int),
        decreases w0.len() - i,
    {
        deltas.push(stripe_widths[i] / g);
        cur.push(stripe_widths[i]);
        i = i + 1;
    }
    assert(cur@ =~= widened_seq(w0, 0));
    let mut k: u32 = 0;
    loop
        invariant
            w0 == stripe_widths@,
            g == seq_gcd(w0),
            g > 0,
            w0.len() > 0,
            widths_positive(w0),
            deltas@.len() == w0.len(),
            forall|j: int| 0 <= j < w0.len() ==> #[trigger] deltas@[j] == w0[j] as int / (g as int),
            k < MAX_SEARCH_STEPS,
            widened_fits(w0, k as int),
            cur@ == widened_seq(w0, k as int),
            forall|k2: int| 0 <= k2 < k ==> #[trigger] step_short(baseline, w0, k2, lpi, um),
            lpi == options.lpi as int,
            um == options.physical_width_um as int,
        decreases MAX_SEARCH_STEPS - k,
    {
        let planned = plan_size(&baseline, cur.as_slice(), options);
        let (width, height, dpi_w, dpi_h) = match planned {
            Ok(size) => size,
            Err(e) => {
                assert(!step_plans(baseline, w0, k as int, lpi, um));
                assert(!step_short(baseline, w0, k as int, lpi, um));
                proof {
                    lemma_no_tall_step(baseline, w0, k as int, lpi, um);
                }
                return Err(e);
            },
        };
        if height >= baseline.height {
            proof {
                assert(!step_short(baseline, w0, k as int, lpi, um));
                assert forall|i: int, j: int|
                    0 <= i < w0.len() && 0 <= j < w0.len() implies cur@[i] * w0[j]
                    == #[trigger] cur@[j] * #[trigger] w0[i] by {
                    lemma_widening_keeps_ratio(w0, k as nat, i, j);
                    assert(widened(w0, k as int, i) <= u32::MAX);
                    assert(widened(w0, k as int, j) <= u32::MAX);
                }
            }
            let info = OutputInfo { width, height, dpi_w, dpi_h, source_params: baseline };
            return Ok((cur, info));
        }
        assert(step_short(baseline, w0, k as int, lpi, um));
        if k + 1 == MAX_SEARCH_STEPS {
            return Err(Error::SearchExhausted);
        }
        let mut next: Vec<u32> = Vec::new();
        let mut i: usize = 0;
        while i < cur.len()
            invariant
                w0 == stripe_widths@,
                g == seq_gcd(w0),
                deltas@.len() == w0.len(),
                forall|j: int| 0 <= j < w0.len() ==> #[trigger] deltas@[j] == w0[j] as int / (g as int),
                cur@ == widened_seq(w0, k as int),
                widened_fits(w0, k as int),
                i <= cur@.len(),
                next@.len() == i,
                forall|j: int| 0 <= j < i ==> #[trigger] next@[j] == widened(w0, k as int + 1, j),
                lpi == options.lpi as int,
                um == options.physical_width_um as int,
                k + 1 < MAX_SEARCH_STEPS,
                w0.len() > 0,
                widths_positive(w0),
                forall|k2: int| 0 <= k2 <= k ==> #[trigger] step_short(baseline, w0, k2, lpi, um),
            decreases cur@.len() - i,
        {
            assert(widened(w0, k as int, i as int) <= u32::MAX);
            assert(widened(w0, k as int + 1, i as int) == widened(w0, k as int, i as int) + w0[i as int] as int / (g as int)) by (nonlinear_arith)
                requires
                    widened(w0, k as int + 1, i as int) == w0[i as int] + (k + 1) * (w0[i as int] as int / (g as int)),
                    widened(w0, k as int, i as int) == w0[i as int] + k * (w0[i as int] as int / (g as int)),
            ;
            if cur[i] as u64 + deltas[i] as u64 > u32::MAX as u64 {
                assert(!widened_fits(w0, k as int + 1));
                assert(!step_plans(baseline, w0, k as int + 1, lpi, um));
                assert(!step_short(baseline, w0, k as int + 1, lpi, um));
                proof {
                    lemma_no_tall_step(baseline, w0, k as int + 1, lpi, um);
                }
                return Err(Error::InvalidInput("widened stripe widths do not fit u32".to_string()));
            }
            next.push(cur[i] + deltas[i]);
            i = i + 1;
        }
        assert forall|j: int| 0 <= j < w0.len() implies #[trigger] widened(w0, k as int + 1, j) <= u32::MAX by {
            assert(next@[j] == widened(w0, k as int + 1, j));
        }
        assert(next@ =~= widened_seq(w0, k as int + 1));
        cur = next;
        k = k + 1;
    }
}

} // verus!
