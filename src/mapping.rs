use vstd::prelude::*;

verus! {

/// The sum of a sequence of stripe widths.
pub open spec fn width_sum(s: Seq<u32>) -> int
    decreases s.len(),
{
    if s.len() == 0 {
        0
    } else {
        width_sum(s.drop_last()) + s.last()
    }
}

/// The largest of a sequence of stripe widths (0 for an empty sequence).
pub open spec fn width_max(s: Seq<u32>) -> int
    decreases s.len(),
{
    if s.len() == 0 {
        0
    } else {
        let m = width_max(s.drop_last());
        if s.last() > m {
            s.last() as int
        } else {
            m
        }
    }
}

/// The composite column that local column `col` of image `index` lands on:
/// the image owns a run of `widths[index]` columns, starting after the runs
/// of the images before it, repeated every `width_sum(widths)` columns.
pub open spec fn column_destination(widths: Seq<u32>, index: int, col: int) -> int {
    let own = widths[index] as int;
    col % own + (col / own) * width_sum(widths) + width_sum(widths.take(index))
}

/// Adding one more width to a prefix adds that width to its sum.
pub proof fn lemma_width_sum_take_step(s: Seq<u32>, n: int)
    requires
        0 <= n < s.len(),
    ensures
        width_sum(s.take(n + 1)) == width_sum(s.take(n)) + s[n],
{
    assert(s.take(n + 1).drop_last() =~= s.take(n));
}

/// A prefix never sums to more than the whole sequence.
pub proof fn lemma_width_sum_take_le(s: Seq<u32>, n: int)
    requires
        0 <= n <= s.len(),
    ensures
        0 <= width_sum(s.take(n)) <= width_sum(s),
    decreases s.len() - n,
{
    if n == s.len() {
        assert(s.take(n) =~= s);
        lemma_width_sum_nonneg(s);
    } else {
        lemma_width_sum_take_step(s, n);
        lemma_width_sum_take_le(s, n + 1);
        lemma_width_sum_nonneg(s.take(n));
    }
}

/// Sums of widths are never negative.
pub proof fn lemma_width_sum_nonneg(s: Seq<u32>)
    ensures
        width_sum(s) >= 0,
    decreases s.len(),
{
    if s.len() > 0 {
        lemma_width_sum_nonneg(s.drop_last());
    }
}

/// The sum of the first `n` widths, when the whole sequence sums to at most
/// `u32::MAX`.
pub fn prefix_width_sum(widths: &[u32], n: usize) -> (r: u32)
    requires
        n <= widths@.len(),
        width_sum(widths@) <= u32::MAX,
    ensures
        r == width_sum(widths@.take(n as int)),
{
    let mut acc: u32 = 0;
    let mut i: usize = 0;
    while i < n
        invariant
            i <= n <= widths@.len(),
            width_sum(widths@) <= u32::MAX,
            acc == width_sum(widths@.take(i as int)),
        decreases n - i,
    {
        proof {
            lemma_width_sum_take_step(widths@, i as int);
            lemma_width_sum_take_le(widths@, i as int + 1);
        }
        acc = acc + widths[i];
        i = i + 1;
    }
    proof {
        assert(widths@.take(0) =~= Seq::<u32>::empty());
    }
    acc
}

/// The sum of all widths, or `None` when it exceeds `u32::MAX`.
pub fn checked_width_sum(widths: &[u32]) -> (r: Option<u32>)
    ensures
        r is Some <==> width_sum(widths@) <= u32::MAX,
        r is Some ==> r->Some_0 == width_sum(widths@),
{
    let mut acc: u64 = 0;
    let mut i: usize = 0;
    while i < widths.len()
        invariant
            i <= widths@.len(),
            acc == width_sum(widths@.take(i as int)),
            acc <= u32::MAX,
        decreases widths@.len() - i,
    {
        proof {
            lemma_width_sum_take_step(widths@, i as int);
        }
        acc = acc + widths[i] as u64;
        i = i + 1;
        if acc > u32::MAX as u64 {
            proof {
                lemma_width_sum_take_le(widths@, i as int);
            }
            return None;
        }
    }
    proof {
        assert(widths@.take(i as int) =~= widths@);
    }
    Some(acc as u32)
}

/// Destination columns, in the composite, of the `output_width` local
/// columns of image `img_index`: entry `j` is
/// `column_destination(lenticular_width_map, img_index, j)`.
pub fn create_line_index_mapping_advanced(
    output_width: u32,
    lenticular_width_map: &[u32],
    img_index: usize,
) -> (r: Vec<u64>)
    requires
        img_index < lenticular_width_map@.len(),
        lenticular_width_map@[img_index as int] > 0,
        width_sum(lenticular_width_map@) <= u32::MAX,
    ensures
        r@.len() == output_width,
        forall|j: int|
            0 <= j < output_width ==> r@[j] == column_destination(
                lenticular_width_map@,
                img_index as int,
                j,
            ),
{
    let ghost ws = lenticular_width_map@;
    let total: u32 = prefix_width_sum(lenticular_width_map, lenticular_width_map.len());
    proof {
        assert(ws.take(ws.len() as int) =~= ws);
    }
    let offset: u32 = prefix_width_sum(lenticular_width_map, img_index);
    let own: u32 = lenticular_width_map[img_index];
    proof {
        lemma_width_sum_take_step(ws, img_index as int);
        lemma_width_sum_take_le(ws, img_index as int + 1);
    }
    let mut output: Vec<u64> = Vec::new();
    let mut col: u32 = 0;
    while col < output_width
        invariant
            col <= output_width,
            own == ws[img_index as int],
            own > 0,
            total == width_sum(ws),
            offset == width_sum(ws.take(img_index as int)),
            offset + own <= total,
            img_index < ws.len(),
            output@.len() == col,
            forall|j: int|
                0 <= j < col ==> output@[j] == column_destination(ws, img_index as int, j),
        decreases output_width - col,
    {
        let group: u32 = col / own;
        let within: u32 = col % own;
        proof {
            assert(group as int * total as int <= u32::MAX as int * u32::MAX as int)
                by (nonlinear_arith)
                requires
                    group <= u32::MAX,
                    total <= u32::MAX,
            ;
        }
        let dest: u64 = within as u64 + group as u64 * total as u64 + offset as u64;
        output.push(dest);
        col = col + 1;
    }
    output
}

/// A width never exceeds the sum of the sequence it belongs to, and the
/// images before it leave room for its run.
pub proof fn lemma_width_le_sum(s: Seq<u32>, index: int)
    requires
        0 <= index < s.len(),
    ensures
        0 <= width_sum(s.take(index)),
        width_sum(s.take(index)) + s[index] <= width_sum(s),
{
    lemma_width_sum_take_step(s, index);
    lemma_width_sum_take_le(s, index + 1);
    lemma_width_sum_nonneg(s.take(index));
}

/// Distinct local columns of one image land on distinct composite columns.
pub proof fn lemma_destination_injective(widths: Seq<u32>, index: int, j1: int, j2: int)
    requires
        0 <= index < widths.len(),
        widths[index] > 0,
        0 <= j1,
        0 <= j2,
        j1 != j2,
    ensures
        column_destination(widths, index, j1) != column_destination(widths, index, j2),
{
    lemma_width_le_sum(widths, index);
    let own = widths[index] as int;
    let total = width_sum(widths);
    let g1 = j1 / own;
    let g2 = j2 / own;
    let r1 = j1 % own;
    let r2 = j2 % own;
    assert(j1 == own * g1 + r1 && j2 == own * g2 + r2 && 0 <= r1 < own && 0 <= r2 < own && g1
        >= 0 && g2 >= 0) by (nonlinear_arith)
        requires
            own > 0,
            j1 >= 0,
            j2 >= 0,
            g1 == j1 / own,
            g2 == j2 / own,
            r1 == j1 % own,
            r2 == j2 % own,
    ;
    assert(r1 + g1 * total != r2 + g2 * total) by (nonlinear_arith)
        requires
            j1 == own * g1 + r1,
            j2 == own * g2 + r2,
            j1 != j2,
            0 <= r1 < own,
            0 <= r2 < own,
            own <= total,
            g1 >= 0,
            g2 >= 0,
    ;
}

} // verus!
