use vstd::prelude::*;
use crate::grid::{Entry, ImageGrid, sum_heights, total_height, lemma_sum_heights_nonneg, lemma_total_nonneg};

verus! {

/// `|a - b|`.
pub open spec fn abs_diff(a: int, b: int) -> int {
    if a >= b {
        a - b
    } else {
        b - a
    }
}

/// Sum over the columns of `|column height - target_height| * column_width`.
pub open spec fn wasted(cols: Seq<Seq<Entry>>, column_width: int, target_height: int) -> int
    decreases cols.len(),
{
    if cols.len() == 0 {
        0
    } else {
        wasted(cols.drop_last(), column_width, target_height)
            + abs_diff(sum_heights(cols.last()), target_height) * column_width
    }
}

/// Some column is shorter than `target_height`.
pub open spec fn any_short(cols: Seq<Seq<Entry>>, target_height: int) -> bool {
    exists|c: int| 0 <= c < cols.len() && sum_heights(#[trigger] cols[c]) < target_height
}

/// Some column is taller than `target_height`.
pub open spec fn any_overfull(cols: Seq<Seq<Entry>>, target_height: int) -> bool {
    exists|c: int| 0 <= c < cols.len() && sum_heights(#[trigger] cols[c]) > target_height
}

/// Every column is exactly `target_height` tall.
pub open spec fn all_exact(cols: Seq<Seq<Entry>>, target_height: int) -> bool {
    forall|c: int| 0 <= c < cols.len() ==> sum_heights(#[trigger] cols[c]) == target_height
}

/// The wasted area is never negative, and with columns of positive width it
/// is zero exactly when every column is exactly as tall as the target.
pub proof fn lemma_wasted_zero(cols: Seq<Seq<Entry>>, column_width: int, target_height: int)
    requires
        column_width >= 0,
    ensures
        wasted(cols, column_width, target_height) >= 0,
        column_width > 0 ==> (wasted(cols, column_width, target_height) == 0
            <==> all_exact(cols, target_height)),
    decreases cols.len(),
{
    if cols.len() > 0 {
        let d = cols.drop_last();
        lemma_wasted_zero(d, column_width, target_height);
        let a = abs_diff(sum_heights(cols.last()), target_height);
        assert(a * column_width >= 0) by (nonlinear_arith)
            requires
                a >= 0,
                column_width >= 0,
        ;
        if column_width > 0 {
            assert(a > 0 ==> a * column_width > 0) by (nonlinear_arith)
                requires
                    column_width > 0,
            ;
            assert(cols.last() == cols[cols.len() - 1]);
            if all_exact(cols, target_height) {
                assert forall|c: int| 0 <= c < d.len() implies sum_heights(#[trigger] d[c]) == target_height by {
                    assert(d[c] == cols[c]);
                }
                assert(sum_heights(cols[cols.len() - 1]) == target_height);
                assert(a == 0);
                assert(a * column_width == 0) by (nonlinear_arith)
                    requires
                        a == 0,
                ;
                assert(wasted(d, column_width, target_height) == 0);
                assert(wasted(cols, column_width, target_height) == 0);
            } else {
                let c = choose|c: int| 0 <= c < cols.len() && sum_heights(#[trigger] cols[c]) != target_height;
                if c < d.len() {
                    assert(d[c] == cols[c]);
                    assert(!all_exact(d, target_height));
                } else {
                    assert(a > 0);
                }
                assert(wasted(cols, column_width, target_height) > 0);
            }
        }
    }
}

/// The total height of a prefix of the columns is at most the total height.
proof fn lemma_total_prefix(cols: Seq<Seq<Entry>>, i: int)
    requires
        0 <= i <= cols.len(),
    ensures
        0 <= total_height(cols.subrange(0, i)) <= total_height(cols),
    decreases cols.len(),
{
    if i == cols.len() {
        assert(cols.subrange(0, i) =~= cols);
        lemma_total_nonneg(cols);
    } else {
        assert(cols.subrange(0, i) =~= cols.drop_last().subrange(0, i));
        lemma_total_prefix(cols.drop_last(), i);
        lemma_sum_heights_nonneg(cols.last());
    }
}

impl ImageGrid {
    /// The area by which the columns miss `target_height`:
    /// the sum over the columns of `|column height - target_height| * column_width`.
    pub fn get_wasted_pixels(&self, target_height: u32) -> (r: u128)
        requires
            self.wf(),
        ensures
            r == wasted(self.layout(), self.column_width as int, target_height as int),
            self.column_width > 0 ==> (r == 0 <==> all_exact(self.layout(), target_height as int)),
    {
        let ghost cols = self.layout();
        let ghost cw = self.column_width as int;
        let ghost t = target_height as int;
        let cw_exec = self.column_width as u128;
        let mut acc: u128 = 0;
        let mut i: usize = 0;
        proof {
            assert(cols.subrange(0, 0) =~= Seq::<Seq<Entry>>::empty());
        }
        while i < self.columns.len()
            invariant
                self.wf(),
                cols == self.layout(),
                cw == self.column_width,
                cw_exec == cw,
                t == target_height,
                i <= self.columns@.len(),
                acc == wasted(cols.subrange(0, i as int), cw, t),
                acc <= (total_height(cols.subrange(0, i as int)) + i * t) * cw,
            decreases self.columns@.len() - i,
        {
            let ghost pre = cols.subrange(0, i + 1);
            proof {
                assert(pre.drop_last() =~= cols.subrange(0, i as int));
                assert(pre.last() == cols[i as int]);
                assert(self.columns@[i as int].wf());
                lemma_total_prefix(cols, i + 1);
                lemma_sum_heights_nonneg(cols[i as int]);
            }
            let h = self.columns[i].column_height;
            let d: u64 = if h >= target_height as u64 {
                h - target_height as u64
            } else {
                target_height as u64 - h
            };
            let ghost th = total_height(pre);
            let ghost tp = total_height(cols.subrange(0, i as int));
            proof {
                assert(d * cw <= u64::MAX * u32::MAX) by (nonlinear_arith)
                    requires
                        d <= u64::MAX,
                        0 <= cw <= u32::MAX,
                ;
                assert(d <= h + t);
                assert(d * cw <= (h + t) * cw) by (nonlinear_arith)
                    requires
                        d <= h + t,
                        cw >= 0,
                ;
                assert((tp + i * t) * cw + (h + t) * cw == (th + (i + 1) * t) * cw) by (nonlinear_arith)
                    requires
                        th == tp + h,
                ;
                assert(i + 1 <= u32::MAX);
                assert((th + (i + 1) * t) * cw <= (u64::MAX + u32::MAX * u32::MAX) * u32::MAX)
                    by (nonlinear_arith)
                    requires
                        0 <= th <= u64::MAX,
                        0 <= i + 1 <= u32::MAX,
                        0 <= t <= u32::MAX,
                        0 <= cw <= u32::MAX,
                ;
            }
            acc = acc + d as u128 * cw_exec;
            i += 1;
        }
        proof {
            assert(cols.subrange(0, i as int) =~= cols);
            lemma_wasted_zero(cols, cw, t);
        }
        acc
    }

    /// Whether some column is shorter than `target_height`.
    pub fn has_empty_space(&self, target_height: u32) -> (r: bool)
        requires
            self.wf(),
        ensures
            r == any_short(self.layout(), target_height as int),
    {
        let mut i: usize = 0;
        while i < self.columns.len()
            invariant
                self.wf(),
                i <= self.columns@.len(),
                forall|c: int| 0 <= c < i ==> sum_heights(#[trigger] self.layout()[c]) >= target_height,
            decreases self.columns@.len() - i,
        {
            assert(self.columns@[i as int].wf());
            if self.columns[i].column_height < target_height as u64 {
                assert(sum_heights(self.layout()[i as int]) < target_height);
                return true;
            }
            i += 1;
        }
        false
    }

    /// Whether some column is taller than `target_height`.
    pub fn has_overfull_columns(&self, target_height: u32) -> (r: bool)
        requires
            self.wf(),
        ensures
            r == any_overfull(self.layout(), target_height as int),
    {
        let mut i: usize = 0;
        while i < self.columns.len()
            invariant
                self.wf(),
                i <= self.columns@.len(),
                forall|c: int| 0 <= c < i ==> sum_heights(#[trigger] self.layout()[c]) <= target_height,
            decreases self.columns@.len() - i,
        {
            assert(self.columns@[i as int].wf());
            if self.columns[i].column_height > target_height as u64 {
                assert(sum_heights(self.layout()[i as int]) > target_height);
                return true;
            }
            i += 1;
        }
        false
    }
}

} // verus!
