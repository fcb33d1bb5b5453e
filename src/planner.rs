use vstd::arithmetic::div_mod::{lemma_fundamental_div_mod, lemma_fundamental_div_mod_converse};
use vstd::prelude::*;
use vstd::seq_lib::{group_to_multiset_ensures, to_multiset_len};

use crate::error::{Error, Result};
use crate::lenticular::{option_widths, InputImageContext, ProcessOptions, SourceParams};
use crate::search::{
    search_can_succeed, search_exhausted, search_found, search_stripe_widths, search_unplannable,
};
use crate::mapping::{checked_width_sum, width_max, width_sum};

verus! {

/// Inches per centimetre, in ten-thousandths (0.3937).
pub const INCH_PER_CM_X10000: u64 = 3937;

/// Denominator of every fixed-point quantity of the library (four decimal
/// places).
pub const FIXED_ONE: u64 = 10000;

/// Composite geometry derived from the print options and stripe widths.
///
/// `dpi_h` and `dpi_w` are fixed-point, in ten-thousandths of a dot per
/// inch.
#[derive(Debug)]
pub struct OutputInfo {
    pub width: u32,
    pub height: u32,
    pub dpi_w: u64,
    pub dpi_h: u64,
    pub source_params: SourceParams,
}

/// Denominator of the sizing formulas: the fixed-point scale of the LPI,
/// of the physical width and of the centimetre-to-inch factor together.
pub open spec fn sizing_den() -> int {
    1_000_000_000_000
}

/// `floor(lpi * width_in * sum(widths))`: the composite width in pixels.
/// Real-valued, it is `baseline_width * f * T / W_max` with
/// `f = dpi_h * width_in / baseline_width` and `dpi_h = lpi * W_max`.
pub open spec fn planned_width(lpi: int, width_um: int, widths: Seq<u32>) -> int {
    (lpi * width_sum(widths) * width_um * INCH_PER_CM_X10000) / sizing_den()
}

/// `floor(baseline_height * f)`, with `f` as for `planned_width`.
pub open spec fn planned_height(
    lpi: int,
    width_um: int,
    widths: Seq<u32>,
    base_width: int,
    base_height: int,
) -> int {
    (base_height * (lpi * width_max(widths) * width_um * INCH_PER_CM_X10000)) / (sizing_den()
        * base_width)
}

/// Every stripe width is positive.
pub open spec fn widths_positive(widths: Seq<u32>) -> bool {
    forall|i: int| 0 <= i < widths.len() ==> widths[i] > 0
}

/// The baseline image has a colour type and a non-empty raster.
pub open spec fn geometry_known(p: SourceParams) -> bool {
    p.color_type is Some && p.width > 0 && p.height > 0
}

/// The inputs on which planning succeeds: valid options and widths, a known
/// baseline, and a composite whose sizes fit in `u32`.
pub open spec fn plan_ok(baseline: SourceParams, widths: Seq<u32>, lpi: int, width_um: int) -> bool {
    &&& widths.len() > 0
    &&& widths_positive(widths)
    &&& lpi > 0
    &&& width_um > 0
    &&& geometry_known(baseline)
    &&& width_sum(widths) <= u32::MAX
    &&& planned_width(lpi, width_um, widths) <= u32::MAX
    &&& planned_height(lpi, width_um, widths, baseline.width as int, baseline.height as int)
        <= u32::MAX
}

/// The width, height, horizontal and vertical DPI that planning gives for
/// these inputs.
pub open spec fn size_matches(
    size: (u32, u32, u64, u64),
    baseline: SourceParams,
    widths: Seq<u32>,
    lpi: int,
    width_um: int,
) -> bool {
    &&& size.0 == planned_width(lpi, width_um, widths)
    &&& size.1 == planned_height(
        lpi,
        width_um,
        widths,
        baseline.width as int,
        baseline.height as int,
    )
    &&& size.2 == lpi * width_sum(widths)
    &&& size.3 == lpi * width_max(widths)
}

/// What a successful plan returns for these inputs.
pub open spec fn plan_matches(
    info: OutputInfo,
    baseline: SourceParams,
    widths: Seq<u32>,
    lpi: int,
    width_um: int,
) -> bool {
    &&& size_matches((info.width, info.height, info.dpi_w, info.dpi_h), baseline, widths, lpi, width_um)
    &&& info.source_params == baseline
}

/// `floor(b * n / d)` split at the quotient of `n / d`.
proof fn lemma_scaled_floor(b: int, n: int, d: int)
    requires
        b >= 0,
        n >= 0,
        d > 0,
    ensures
        (b * n) / d == b * (n / d) + (b * (n % d)) / d,
{
    let q = n / d;
    let r = n % d;
    lemma_fundamental_div_mod(n, d);
    let q2 = (b * r) / d;
    let r2 = (b * r) % d;
    lemma_fundamental_div_mod(b * r, d);
    assert(b * n == (b * q + q2) * d + r2) by (nonlinear_arith)
        requires
            n == d * q + r,
            b * r == d * q2 + r2,
    ;
    lemma_fundamental_div_mod_converse(b * n, d, b * q + q2, r2);
}

/// Bounds on the partial products of the sizing numerators.
proof fn lemma_product_bounds(a: int, b: int, c: int)
    requires
        0 <= a <= u32::MAX,
        0 <= b <= u32::MAX,
        0 <= c <= u32::MAX,
    ensures
        a * b <= 0x1_0000_0000_0000_0000,
        a * b * c <= 0x1_0000_0000_0000_0000_0000_0000,
        a * b * c * 3937 <= 0x1_0000_0000_0000_0000_0000_0000_0000,
{
    assert(a * b <= 0x1_0000_0000_0000_0000) by (nonlinear_arith)
        requires
            0 <= a <= u32::MAX,
            0 <= b <= u32::MAX,
    ;
    assert(a * b * c <= 0x1_0000_0000_0000_0000_0000_0000) by (nonlinear_arith)
        requires
            0 <= a * b <= 0x1_0000_0000_0000_0000,
            0 <= c <= u32::MAX,
    ;
    assert(a * b * c * 3937 <= 0x1_0000_0000_0000_0000_0000_0000_0000) by (nonlinear_arith)
        requires
            0 <= a * b * c <= 0x1_0000_0000_0000_0000_0000_0000,
    ;
}

/// The largest stripe width.
pub fn max_width(widths: &[u32]) -> (r: u32)
    ensures
        r == width_max(widths@),
{
    let mut m: u32 = 0;
    let mut i: usize = 0;
    while i < widths.len()
        invariant
            i <= widths@.len(),
            m == width_max(widths@.take(i as int)),
        decreases widths@.len() - i,
    {
        assert(widths@.take(i as int + 1).drop_last() =~= widths@.take(i as int));
        if widths[i] > m {
            m = widths[i];
        }
        i = i + 1;
    }
    assert(widths@.take(i as int) =~= widths@);
    m
}

/// Whether every stripe width is positive.
pub fn all_widths_positive(widths: &[u32]) -> (r: bool)
    ensures
        r == widths_positive(widths@),
{
    let mut i: usize = 0;
    while i < widths.len()
        invariant
            i <= widths@.len(),
            forall|j: int| 0 <= j < i ==> widths@[j] > 0,
        decreases widths@.len() - i,
    {
        if widths[i] == 0 {
            return false;
        }
        i = i + 1;
    }
    true
}

/// Composite width, height, horizontal and vertical DPI for
/// `stripe_widths` under `options`, from the baseline's geometry.
pub(crate) fn plan_size(baseline: &SourceParams, stripe_widths: &[u32], options: &ProcessOptions) -> (r: Result<
    (u32, u32, u64, u64),
>)
    ensures
        r is Ok <==> plan_ok(
            *baseline,
            stripe_widths@,
            options.lpi as int,
            options.physical_width_um as int,
        ),
        r is Ok ==> size_matches(
            r->Ok_0,
            *baseline,
            stripe_widths@,
            options.lpi as int,
            options.physical_width_um as int,
        ),
        r is Err ==> r->Err_0 is InvalidInput,
{
    if stripe_widths.len() == 0 {
        return Err(Error::InvalidInput("the set of stripe widths is empty".to_string()));
    }
    if !all_widths_positive(stripe_widths) {
        return Err(Error::InvalidInput("stripe widths must be positive".to_string()));
    }
    if options.lpi == 0 || options.physical_width_um == 0 {
        return Err(Error::InvalidInput("LPI and physical width must be positive".to_string()));
    }
    if baseline.color_type.is_none() || baseline.width == 0 || baseline.height == 0 {
        return Err(Error::InvalidInput("baseline geometry is unavailable".to_string()));
    }
    let total: u32 = match checked_width_sum(stripe_widths) {
        Some(t) => t,
        None => {
            return Err(Error::InvalidInput("stripe widths sum past u32::MAX".to_string()));
        },
    };
    let widest: u32 = max_width(stripe_widths);
    let lpi: u128 = options.lpi as u128;
    let um: u128 = options.physical_width_um as u128;
    proof {
        lemma_product_bounds(lpi as int, total as int, um as int);
        lemma_product_bounds(lpi as int, widest as int, um as int);
    }
    let wide: u128 = lpi * (total as u128) * um * (INCH_PER_CM_X10000 as u128);
    let width: u128 = wide / 1_000_000_000_000u128;
    if width > u32::MAX as u128 {
        return Err(Error::InvalidInput("composite width does not fit u32".to_string()));
    }
    let num: u128 = lpi * (widest as u128) * um * (INCH_PER_CM_X10000 as u128);
    let den: u128 = 1_000_000_000_000u128 * (baseline.width as u128);
    let bh: u128 = baseline.height as u128;
    let q: u128 = num / den;
    let rem: u128 = num % den;
    proof {
        lemma_scaled_floor(bh as int, num as int, den as int);
        assert(bh * q >= q) by (nonlinear_arith)
            requires
                bh >= 1,
                q >= 0,
        ;
        assert((bh * rem) / (den as int) >= 0) by (nonlinear_arith)
            requires
                0 <= rem < den,
                bh >= 0,
                den > 0,
        ;
    }
    if q > u32::MAX as u128 {
        return Err(Error::InvalidInput("composite height does not fit u32".to_string()));
    }
    proof {
        assert(bh * rem <= u32::MAX * (1_000_000_000_000 * u32::MAX)) by (nonlinear_arith)
            requires
                0 <= rem < den,
                den == 1_000_000_000_000 * baseline.width,
                baseline.width <= u32::MAX,
                bh <= u32::MAX,
        ;
        assert(bh * q <= u32::MAX * u32::MAX) by (nonlinear_arith)
            requires
                q <= u32::MAX,
                bh <= u32::MAX,
        ;
    }
    let height: u128 = bh * q + (bh * rem) / den;
    if height > u32::MAX as u128 {
        return Err(Error::InvalidInput("composite height does not fit u32".to_string()));
    }
    proof {
        assert(options.lpi * widest <= u32::MAX * u32::MAX) by (nonlinear_arith)
            requires
                options.lpi <= u32::MAX,
                widest <= u32::MAX,
        ;
        assert(options.lpi * total <= u32::MAX * u32::MAX) by (nonlinear_arith)
            requires
                options.lpi <= u32::MAX,
                total <= u32::MAX,
        ;
    }
    Ok((width as u32, height as u32, options.lpi as u64 * total as u64, options.lpi as u64 * widest as u64))
}

/// Plans the composite for `stripe_widths` under `options`, from the
/// geometry of the baseline image.
pub fn plan(baseline: SourceParams, stripe_widths: &[u32], options: &ProcessOptions) -> (r: Result<
    OutputInfo,
>)
    ensures
        r is Ok <==> plan_ok(
            baseline,
            stripe_widths@,
            options.lpi as int,
            options.physical_width_um as int,
        ),
        r is Ok ==> plan_matches(
            r->Ok_0,
            baseline,
            stripe_widths@,
            options.lpi as int,
            options.physical_width_um as int,
        ),
        r is Err ==> r->Err_0 is InvalidInput,
{
    let (width, height, dpi_w, dpi_h) = plan_size(&baseline, stripe_widths, options)?;
    Ok(OutputInfo { width, height, dpi_w, dpi_h, source_params: baseline })
}

/// What planning `inputs` under `options` promises: without `auto_width`
/// the inputs stay as they are and the plan is that of their widths; with
/// it, the inputs take the widths the search finds, or stay as they are
/// when it fails.
pub open spec fn calc_output_info_ok<R>(
    r: Result<OutputInfo>,
    old_inputs: Seq<InputImageContext<R>>,
    new_inputs: Seq<InputImageContext<R>>,
    baseline: SourceParams,
    options: ProcessOptions,
) -> bool {
    let w0 = option_widths(old_inputs);
    let w1 = option_widths(new_inputs);
    let lpi = options.lpi as int;
    let um = options.physical_width_um as int;
    &&& new_inputs.len() == old_inputs.len()
    &&& forall|i: int|
        0 <= i < old_inputs.len() ==> #[trigger] new_inputs[i].stream() == old_inputs[i].stream()
    &&& !options.auto_width ==> {
        &&& new_inputs == old_inputs
        &&& r is Ok <==> plan_ok(baseline, w0, lpi, um)
        &&& r is Ok ==> plan_matches(r->Ok_0, baseline, w0, lpi, um)
        &&& r is Err ==> r->Err_0 is InvalidInput
    }
    &&& options.auto_width ==> {
        &&& r is Err ==> new_inputs == old_inputs
        &&& r is Ok ==> search_found(baseline, w0, lpi, um, w1, r->Ok_0)
        &&& r is Ok ==> r->Ok_0.height >= baseline.height
        &&& r is Ok ==> forall|i: int, j: int|
            0 <= i < w0.len() && 0 <= j < w0.len() ==> w1[i] * w0[j] == #[trigger] w1[j]
                * #[trigger] w0[i]
        &&& (r is Err && r->Err_0 is SearchExhausted) <==> search_exhausted(baseline, w0, lpi, um)
        &&& (r is Err && r->Err_0 is InvalidInput) ==> search_unplannable(baseline, w0, lpi, um)
        &&& r is Err ==> (r->Err_0 is InvalidInput || r->Err_0 is SearchExhausted)
        &&& search_can_succeed(baseline, w0, lpi, um) ==> r is Ok
    }
}

/// Plans the composite for the stripe widths of `inputs`, in order; with
/// `options.auto_width`, first widens them by `search_stripe_widths` and
/// stores the widths found in `inputs`.
pub fn calc_output_info<R>(
    inputs: &mut [InputImageContext<R>],
    baseline: SourceParams,
    options: &ProcessOptions,
) -> (r: Result<OutputInfo>)
    ensures
        calc_output_info_ok(r, old(inputs)@, final(inputs)@, baseline, *options),
{
    let ghost old_inputs = inputs@;
    let mut widths: Vec<u32> = Vec::new();
    let mut i: usize = 0;
    while i < inputs.len()
        invariant
            inputs@ == old_inputs,
            i <= inputs@.len(),
            widths@ =~= option_widths(inputs@).take(i as int),
        decreases inputs@.len() - i,
    {
        widths.push(inputs[i].image_options().lenticular_width_px);
        i = i + 1;
    }
    assert(widths@ =~= option_widths(old_inputs));
    if !options.auto_width {
        return plan(baseline, &widths, options);
    }
    let (found, info) = match search_stripe_widths(baseline, &widths, options) {
        Ok(pair) => pair,
        Err(e) => {
            return Err(e);
        },
    };
    let mut i: usize = 0;
    while i < inputs.len()
        invariant
            inputs@.len() == old_inputs.len(),
            found@.len() == old_inputs.len(),
            i <= inputs@.len(),
            forall|k: int|
                0 <= k < old_inputs.len() ==> #[trigger] inputs@[k].stream() == old_inputs[k].stream(),
            forall|k: int|
                0 <= k < i ==> #[trigger] inputs@[k].options().lenticular_width_px == found@[k],
        decreases inputs@.len() - i,
    {
        inputs[i].image_options_mut().lenticular_width_px = found[i];
        i = i + 1;
    }
    assert(option_widths(inputs@) =~= found@);
    Ok(info)
}

/// Taking one width out of a sequence takes it off the sum.
pub proof fn lemma_width_sum_remove(s: Seq<u32>, k: int)
    requires
        0 <= k < s.len(),
    ensures
        width_sum(s) == width_sum(s.remove(k)) + s[k],
    decreases s.len(),
{
    if k == s.len() - 1 {
        assert(s.remove(k) =~= s.drop_last());
    } else {
        lemma_width_sum_remove(s.drop_last(), k);
        assert(s.remove(k).drop_last() =~= s.drop_last().remove(k));
    }
}

/// Taking one width out of a sequence leaves the larger of it and the rest
/// as the maximum.
pub proof fn lemma_width_max_remove(s: Seq<u32>, k: int)
    requires
        0 <= k < s.len(),
    ensures
        width_max(s) == if s[k] > width_max(s.remove(k)) {
            s[k] as int
        } else {
            width_max(s.remove(k))
        },
    decreases s.len(),
{
    if k == s.len() - 1 {
        assert(s.remove(k) =~= s.drop_last());
    } else {
        lemma_width_max_remove(s.drop_last(), k);
        assert(s.remove(k).drop_last() =~= s.drop_last().remove(k));
    }
}

/// Two orderings of the same widths have the same sum and maximum.
pub proof fn lemma_width_stats_permutation(a: Seq<u32>, b: Seq<u32>)
    requires
        a.to_multiset() == b.to_multiset(),
    ensures
        a.len() == b.len(),
        width_sum(a) == width_sum(b),
        width_max(a) == width_max(b),
        widths_positive(a) == widths_positive(b),
    decreases a.len(),
{
    broadcast use group_to_multiset_ensures;

    to_multiset_len(a);
    to_multiset_len(b);
    if a.len() > 0 {
        let n = a.len() - 1;
        let x = a[n];
        assert(a.to_multiset().count(x) > 0);
        assert(b.contains(x));
        let k = choose|k: int| 0 <= k < b.len() && b[k] == x;
        assert(a.remove(n) =~= a.drop_last());
        assert(a.drop_last().to_multiset() =~= b.remove(k).to_multiset());
        lemma_width_stats_permutation(a.drop_last(), b.remove(k));
        lemma_width_sum_remove(b, k);
        lemma_width_max_remove(b, k);
        if !widths_positive(a) {
            let i = choose|i: int| 0 <= i < a.len() && a[i] == 0;
            assert(a.contains(0u32));
            assert(a.to_multiset().count(0u32) > 0);
            assert(b.contains(0u32));
        }
        if !widths_positive(b) {
            let i = choose|i: int| 0 <= i < b.len() && b[i] == 0;
            assert(b.contains(0u32));
            assert(b.to_multiset().count(0u32) > 0);
            assert(a.contains(0u32));
        }
    }
}

/// The plan does not depend on the order of the images: two orderings of
/// the same stripe widths are accepted alike and give the same composite
/// width, height and DPI.
pub proof fn lemma_plan_order_independent(
    baseline: SourceParams,
    a: Seq<u32>,
    b: Seq<u32>,
    lpi: int,
    width_um: int,
    info: OutputInfo,
)
    requires
        a.to_multiset() == b.to_multiset(),
    ensures
        plan_ok(baseline, a, lpi, width_um) == plan_ok(baseline, b, lpi, width_um),
        plan_matches(info, baseline, a, lpi, width_um) == plan_matches(
            info,
            baseline,
            b,
            lpi,
            width_um,
        ),
{
    lemma_width_stats_permutation(a, b);
}

/// A TIFF resolution rational for a fixed-point DPI: the numerator counts
/// ten-thousandths of a dot per inch, saturated at `u32::MAX`, over 10000.
pub fn resolution_rational(dpi: u64) -> (r: (u32, u32))
    ensures
        r.0 == if dpi > u32::MAX { u32::MAX as int } else { dpi as int },
        r.1 == FIXED_ONE,
{
    let n: u32 = if dpi > u32::MAX as u64 {
        u32::MAX
    } else {
        dpi as u32
    };
    (n, FIXED_ONE as u32)
}

impl ProcessOptions {
    /// Plans the composite for `inputs` as `calc_output_info` does.
    pub fn calc_output_info<R>(
        &self,
        inputs: &mut [InputImageContext<R>],
        baseline: SourceParams,
    ) -> (r: Result<OutputInfo>)
        ensures
            calc_output_info_ok(r, old(inputs)@, final(inputs)@, baseline, *self),
    {
        calc_output_info(inputs, baseline, self)
    }
}

} // verus!
