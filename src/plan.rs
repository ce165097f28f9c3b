use vstd::prelude::*;
use crate::grid::{Entry, ImageColumn, ImageGrid, sum_heights, lemma_sum_heights_push};

verus! {

/// Entry `p` of a column comes before entry `q` when padding: it is taller,
/// or equally tall and placed later.
pub open spec fn pads_before(col: Seq<Entry>, p: int, q: int) -> bool {
    col[p].0 > col[q].0 || (col[p].0 == col[q].0 && p > q)
}

/// `order` lists the positions of a column's entries, tallest first, and
/// among equally tall entries the later one first.
pub open spec fn is_pad_order(col: Seq<Entry>, order: Seq<int>) -> bool {
    &&& order.len() == col.len()
    &&& forall|a: int| 0 <= a < order.len() ==> 0 <= #[trigger] order[a] < col.len()
    &&& forall|a: int, b: int| 0 <= a < b < order.len() ==> pads_before(col, #[trigger] order[a], #[trigger] order[b])
}

/// Position `p` occurs in `order`.
pub open spec fn occurs(order: Seq<usize>, p: int) -> bool {
    exists|a: int| 0 <= a < order.len() && #[trigger] order[a] == p
}

/// The positions of the column's entries in padding order.
pub fn padding_order(col: &Vec<Entry>) -> (order: Vec<usize>)
    ensures
        is_pad_order(col@, order@.map_values(|p: usize| p as int)),
        forall|p: int| 0 <= p < col@.len() ==> #[trigger] occurs(order@, p),
{
    let ghost c = col@;
    let mut order: Vec<usize> = Vec::new();
    let mut i: usize = 0;
    while i < col.len()
        invariant
            c == col@,
            i <= col@.len(),
            order@.len() == i,
            forall|a: int| 0 <= a < order@.len() ==> #[trigger] order@[a] < i,
            forall|a: int, b: int| 0 <= a < b < order@.len() ==> pads_before(c, #[trigger] order@[a] as int, #[trigger] order@[b] as int),
            forall|p: int| 0 <= p < i ==> #[trigger] occurs(order@, p),
        decreases col@.len() - i,
    {
        let h = col[i].0;
        let mut pos: usize = 0;
        while pos < order.len() && col[order[pos]].0 > h
            invariant
                c == col@,
                i < col@.len(),
                h == c[i as int].0,
                pos <= order@.len(),
                order@.len() == i,
                forall|a: int| 0 <= a < order@.len() ==> #[trigger] order@[a] < i,
                forall|a: int| 0 <= a < pos ==> c[#[trigger] order@[a] as int].0 > h,
            decreases order@.len() - pos,
        {
            pos += 1;
        }
        let ghost old_order = order@;
        order.insert(pos, i);
        proof {
            assert forall|a: int, b: int| 0 <= a < b < order@.len() implies pads_before(c, #[trigger] order@[a] as int, #[trigger] order@[b] as int) by {
                if b < pos {
                    assert(order@[a] == old_order[a] && order@[b] == old_order[b]);
                } else if b == pos {
                    assert(order@[a] == old_order[a]);
                } else if a < pos {
                    assert(order@[a] == old_order[a] && order@[b] == old_order[b - 1]);
                    if pos < old_order.len() {
                        assert(c[old_order[pos as int] as int].0 <= h);
                        if b - 1 > pos {
                            assert(pads_before(c, old_order[pos as int] as int, old_order[b - 1] as int));
                        }
                    }
                } else if a == pos {
                    assert(order@[b] == old_order[b - 1]);
                    assert(c[old_order[pos as int] as int].0 <= h);
                    if b - 1 > pos {
                        assert(pads_before(c, old_order[pos as int] as int, old_order[b - 1] as int));
                    }
                } else {
                    assert(order@[a] == old_order[a - 1] && order@[b] == old_order[b - 1]);
                }
            }
            assert forall|p: int| 0 <= p < i + 1 implies #[trigger] occurs(order@, p) by {
                if p == i {
                    assert(order@[pos as int] == p);
                } else {
                    assert(occurs(old_order, p));
                    let a = choose|a: int| 0 <= a < old_order.len() && #[trigger] old_order[a] == p;
                    if a < pos {
                        assert(order@[a] == p);
                    } else {
                        assert(order@[a + 1] == p);
                    }
                }
            }
        }
        i += 1;
    }
    proof {
        let o = order@.map_values(|p: usize| p as int);
        assert forall|a: int, b: int| 0 <= a < b < o.len() implies pads_before(c, #[trigger] o[a], #[trigger] o[b]) by {
            assert(pads_before(c, order@[a] as int, order@[b] as int));
        }
    }
    order
}

/// Where one image lands on the canvas: its column's left edge `x`, its top
/// `offset`, its height, and the handle of the photograph to draw.
#[derive(Clone, Copy, Debug, PartialEq, Eq, Structural)]
pub struct FinalImageInfo {
    pub x: u64,
    pub offset: u64,
    pub image_height: u32,
    pub id: usize,
}

/// The bottom edge of the last placement, `0` for none.
pub open spec fn end_offset(r: Seq<FinalImageInfo>) -> int {
    if r.len() == 0 {
        0
    } else {
        r.last().offset + r.last().image_height
    }
}

/// The placements are stacked from the top: the first starts at `0`, and
/// each starts where the one before it ends.
pub open spec fn stacked(r: Seq<FinalImageInfo>) -> bool {
    &&& r.len() > 0 ==> r[0].offset == 0
    &&& forall|i: int| 0 < i < r.len() ==> (#[trigger] r[i]).offset == r[i - 1].offset + r[i - 1].image_height
}

/// Some entry of the column has a positive height.
pub open spec fn has_positive(col: Seq<Entry>) -> bool {
    exists|p: int| 0 <= p < col.len() && (#[trigger] col[p]).0 > 0
}

/// The placements after the column's own entries repeat them in padding
/// order `order`, cycling through it.
pub open spec fn pads_follow(col: Seq<Entry>, order: Seq<int>, r: Seq<FinalImageInfo>) -> bool {
    forall|i: int| col.len() <= i < r.len() ==> {
        &&& (#[trigger] r[i]).image_height == col[order[(i - col.len()) % (col.len() as int)]].0
        &&& r[i].id == col[order[(i - col.len()) % (col.len() as int)]].1
    }
}

/// `r` is the plan of a column with entries `col` at left edge `x` on a
/// canvas `target_height` tall: the entries stacked in order, then, while the
/// column ends above `target_height`, copies of its entries in padding order.
/// A column without an entry of positive height is not padded.
pub open spec fn column_plan_ok(col: Seq<Entry>, x: int, target_height: int, r: Seq<FinalImageInfo>) -> bool {
    &&& col.len() <= r.len()
    &&& forall|i: int| 0 <= i < r.len() ==> (#[trigger] r[i]).x == x
    &&& forall|i: int| 0 <= i < col.len() ==> (#[trigger] r[i]).image_height == col[i].0 && r[i].id == col[i].1
    &&& stacked(r)
    &&& forall|i: int| col.len() <= i < r.len() ==> (#[trigger] r[i]).offset < target_height
    &&& r.len() > col.len() ==> exists|order: Seq<int>| #[trigger] is_pad_order(col, order) && pads_follow(col, order, r)
    &&& has_positive(col) ==> end_offset(r) >= target_height
    &&& !has_positive(col) ==> r.len() == col.len()
}

proof fn lemma_stack_push(r: Seq<FinalImageInfo>, f: FinalImageInfo)
    requires
        stacked(r),
        f.offset == end_offset(r),
    ensures
        stacked(r.push(f)),
        end_offset(r.push(f)) == f.offset + f.image_height,
{
    let s = r.push(f);
    assert forall|i: int| 0 < i < s.len() implies (#[trigger] s[i]).offset == s[i - 1].offset + s[i - 1].image_height by {
        if i < r.len() {
            assert(s[i] == r[i] && s[i - 1] == r[i - 1]);
        } else {
            assert(s[i - 1] == r.last());
        }
    }
}

proof fn lemma_sum_prefix(s: Seq<Entry>, i: int)
    requires
        0 <= i <= s.len(),
    ensures
        sum_heights(s.subrange(0, i)) <= sum_heights(s),
    decreases s.len(),
{
    if i == s.len() {
        assert(s.subrange(0, i) =~= s);
    } else {
        assert(s.subrange(0, i) =~= s.drop_last().subrange(0, i));
        lemma_sum_prefix(s.drop_last(), i);
    }
}

proof fn lemma_mod_step(j: int, m: int)
    requires
        j >= 0,
        m > 0,
    ensures
        0 <= j % m < m,
        (j + 1) % m == if j % m + 1 == m { 0 } else { j % m + 1 },
{
    vstd::arithmetic::div_mod::lemma_fundamental_div_mod(j, m);
    vstd::arithmetic::div_mod::lemma_mod_pos_bound(j, m);
    let q = j / m;
    let r = j % m;
    assert(j + 1 == (q + 1) * m + 0 || r + 1 != m) by (nonlinear_arith)
        requires
            j == m * q + r,
    ;
    assert(j + 1 == q * m + (r + 1)) by (nonlinear_arith)
        requires
            j == m * q + r,
    ;
    if r + 1 == m {
        vstd::arithmetic::div_mod::lemma_fundamental_div_mod_converse(j + 1, m, q + 1, 0);
    } else {
        vstd::arithmetic::div_mod::lemma_fundamental_div_mod_converse(j + 1, m, q, r + 1);
    }
}

/// Plans one column at left edge `x`: its images stacked from the top and,
/// while the column ends above `target_height`, copies of its images,
/// tallest first, stacked below them.
pub fn plan_column(column: &ImageColumn, x: u64, target_height: u32) -> (r: Vec<FinalImageInfo>)
    requires
        column.wf(),
    ensures
        column_plan_ok(column.image_paths@, x as int, target_height as int, r@),
{
    let ghost col = column.image_paths@;
    let m = column.image_paths.len();
    let mut r: Vec<FinalImageInfo> = Vec::new();
    let mut offset: u64 = 0;
    let mut i: usize = 0;
    proof {
        assert(col.subrange(0, 0) =~= Seq::<Entry>::empty());
    }
    while i < m
        invariant
            col == column.image_paths@,
            m == col.len(),
            column.wf(),
            i <= m,
            r@.len() == i,
            forall|a: int| 0 <= a < r@.len() ==> (#[trigger] r@[a]).x == x,
            forall|a: int| 0 <= a < i ==> (#[trigger] r@[a]).image_height == col[a].0 && r@[a].id == col[a].1,
            stacked(r@),
            offset == end_offset(r@),
            offset == sum_heights(col.subrange(0, i as int)),
        decreases m - i,
    {
        let e = column.image_paths[i];
        let f = FinalImageInfo { x, offset, image_height: e.0, id: e.1 };
        proof {
            lemma_stack_push(r@, f);
            assert(col.subrange(0, i + 1) =~= col.subrange(0, i as int).push(e));
            lemma_sum_heights_push(col.subrange(0, i as int), e);
            lemma_sum_prefix(col, i + 1);
        }
        r.push(f);
        offset = offset + e.0 as u64;
        i += 1;
    }
    if offset < target_height as u64 {
        let order = padding_order(&column.image_paths);
        let ghost o = order@.map_values(|p: usize| p as int);
        proof {
            assert forall|a: int| 0 <= a < o.len() implies o[a] == #[trigger] order@[a] && order@[a] < m by {
                assert(0 <= o[a] < col.len());
            }
        }
        if m > 0 && column.image_paths[order[0]].0 > 0 {
            let mut rr: usize = 0;
            let ghost mut j: int = 0;
            proof {
                assert(col[order@[0] as int].0 > 0);
                assert(has_positive(col));
            }
            while offset < target_height as u64
                invariant
                    col == column.image_paths@,
                    m == col.len(),
                    m > 0,
                    is_pad_order(col, o),
                    o.len() == m,
                    col[o[0]].0 > 0,
                    order@.len() == m,
                    forall|a: int| 0 <= a < o.len() ==> o[a] == #[trigger] order@[a] && order@[a] < m,
                    j >= 0,
                    rr == j % (m as int),
                    r@.len() == m + j,
                    forall|a: int| 0 <= a < r@.len() ==> (#[trigger] r@[a]).x == x,
                    forall|a: int| 0 <= a < m ==> (#[trigger] r@[a]).image_height == col[a].0 && r@[a].id == col[a].1,
                    stacked(r@),
                    offset == end_offset(r@),
                    offset <= target_height + u32::MAX,
                    pads_follow(col, o, r@),
                    forall|a: int| m <= a < r@.len() ==> (#[trigger] r@[a]).offset < target_height,
                decreases
                    if offset < target_height { (target_height as int) - (offset as int) } else { 0int },
                    if rr == 0 { 0int } else { (m as int) - (rr as int) },
            {
                proof {
                    lemma_mod_step(j, m as int);
                }
                let p = order[rr];
                let e = column.image_paths[p];
                let f = FinalImageInfo { x, offset, image_height: e.0, id: e.1 };
                proof {
                    lemma_stack_push(r@, f);
                    let s = r@.push(f);
                    assert((s.len() - 1 - m) % (m as int) == rr);
                    assert forall|a: int| m <= a < s.len() implies {
                        &&& (#[trigger] s[a]).image_height == col[o[(a - m) % (m as int)]].0
                        &&& s[a].id == col[o[(a - m) % (m as int)]].1
                    } by {
                        if a < r@.len() {
                            assert(s[a] == r@[a]);
                        }
                    }
                }
                r.push(f);
                offset = offset + e.0 as u64;
                rr = if rr + 1 == m { 0 } else { rr + 1 };
                proof {
                    j = j + 1;
                }
            }
            proof {
                assert(is_pad_order(col, o) && pads_follow(col, o, r@));
            }
        } else {
            proof {
                assert forall|p: int| 0 <= p < col.len() implies (#[trigger] col[p]).0 == 0 by {
                    assert(occurs(order@, p));
                    let a = choose|a: int| 0 <= a < order@.len() && #[trigger] order@[a] == p;
                    if a > 0 {
                        assert(pads_before(col, o[0], o[a]));
                    }
                }
            }
        }
    } else {
        proof {
            lemma_sum_prefix(col, m as int);
            assert(col.subrange(0, m as int) =~= col);
        }
    }
    r
}

/// The column plans one after another.
pub open spec fn flatten(segs: Seq<Seq<FinalImageInfo>>) -> Seq<FinalImageInfo>
    decreases segs.len(),
{
    if segs.len() == 0 {
        Seq::empty()
    } else {
        flatten(segs.drop_last()) + segs.last()
    }
}

/// `r` is the plan of the whole layout: for each column `c` in order, the
/// plan of that column at left edge `c * column_width`.
pub open spec fn grid_plan_ok(
    cols: Seq<Seq<Entry>>,
    column_width: int,
    target_height: int,
    r: Seq<FinalImageInfo>,
) -> bool {
    exists|segs: Seq<Seq<FinalImageInfo>>| {
        &&& segs.len() == cols.len()
        &&& r == #[trigger] flatten(segs)
        &&& forall|c: int| 0 <= c < cols.len() ==> column_plan_ok(cols[c], c * column_width, target_height, #[trigger] segs[c])
    }
}

impl ImageGrid {
    /// Plans where every image of the layout is drawn on a canvas
    /// `target_height` tall, column by column (see `plan_column`).
    pub fn get_image_info(&self, target_height: u32) -> (r: Vec<FinalImageInfo>)
        requires
            self.wf(),
        ensures
            grid_plan_ok(self.layout(), self.column_width as int, target_height as int, r@),
    {
        let ghost cols = self.layout();
        let ghost cw = self.column_width as int;
        let mut r: Vec<FinalImageInfo> = Vec::new();
        let ghost mut segs: Seq<Seq<FinalImageInfo>> = Seq::empty();
        let mut c: usize = 0;
        while c < self.columns.len()
            invariant
                self.wf(),
                cols == self.layout(),
                cw == self.column_width,
                c <= self.columns@.len(),
                segs.len() == c,
                r@ == flatten(segs),
                forall|k: int| 0 <= k < c ==> column_plan_ok(cols[k], k * cw, target_height as int, #[trigger] segs[k]),
            decreases self.columns@.len() - c,
        {
            proof {
                assert(c * cw <= u32::MAX * u32::MAX) by (nonlinear_arith)
                    requires
                        0 <= c <= u32::MAX,
                        0 <= cw <= u32::MAX,
                ;
                assert(self.columns@[c as int].wf());
            }
            let x = c as u64 * self.column_width as u64;
            let mut seg = plan_column(&self.columns[c], x, target_height);
            let ghost s = seg@;
            r.append(&mut seg);
            proof {
                let old_segs = segs;
                segs = segs.push(s);
                assert(segs.drop_last() =~= old_segs);
                assert forall|k: int| 0 <= k < c + 1 implies column_plan_ok(cols[k], k * cw, target_height as int, #[trigger] segs[k]) by {
                    if k < c {
                        assert(segs[k] == old_segs[k]);
                    }
                }
            }
            c += 1;
        }
        r
    }
}

proof fn lemma_stacked_after(r: Seq<FinalImageInfo>, i: int, j: int)
    requires
        stacked(r),
        0 <= i < j < r.len(),
    ensures
        r[i].offset + r[i].image_height <= r[j].offset,
    decreases j - i,
{
    if j > i + 1 {
        lemma_stacked_after(r, i, j - 1);
    }
}

proof fn lemma_stacked_growth(r: Seq<FinalImageInfo>, i: int, j: int)
    requires
        stacked(r),
        0 <= i <= j < r.len(),
        forall|k: int| i <= k < j ==> (#[trigger] r[k]).image_height >= 1,
    ensures
        r[j].offset >= r[i].offset + (j - i),
    decreases j - i,
{
    if j > i {
        lemma_stacked_growth(r, i, j - 1);
    }
}

/// Within one column's plan the placements do not overlap: each starts where
/// the previous one ends, and any later one starts at or below the bottom of
/// an earlier one.
pub proof fn lemma_column_offsets(col: Seq<Entry>, x: int, target_height: int, r: Seq<FinalImageInfo>)
    requires
        column_plan_ok(col, x, target_height, r),
    ensures
        r.len() > 0 ==> r[0].offset == 0,
        forall|i: int| 0 < i < r.len() ==> (#[trigger] r[i]).offset == r[i - 1].offset + r[i - 1].image_height,
        forall|i: int, j: int| 0 <= i < j < r.len() ==> #[trigger] r[i].offset + r[i].image_height <= #[trigger] r[j].offset,
{
    assert forall|i: int, j: int| 0 <= i < j < r.len() implies #[trigger] r[i].offset + r[i].image_height <= #[trigger] r[j].offset by {
        lemma_stacked_after(r, i, j);
    }
}

/// Padding ends: in a column whose images all have positive height, every
/// copy added moves the running offset down, and at most `target_height`
/// copies are added.
pub proof fn lemma_padding_terminates(col: Seq<Entry>, x: int, target_height: int, r: Seq<FinalImageInfo>)
    requires
        column_plan_ok(col, x, target_height, r),
        target_height >= 0,
        col.len() >= 1,
        forall|p: int| 0 <= p < col.len() ==> (#[trigger] col[p]).0 > 0,
    ensures
        forall|i: int| col.len() <= i < r.len() ==> (#[trigger] r[i]).image_height > 0,
        forall|i: int| col.len() <= i < r.len() - 1 ==> (#[trigger] r[i + 1]).offset > r[i].offset,
        r.len() - col.len() <= target_height,
{
    let m = col.len() as int;
    if r.len() > m {
        let order = choose|order: Seq<int>| #[trigger] is_pad_order(col, order) && pads_follow(col, order, r);
        assert forall|i: int| m <= i < r.len() implies (#[trigger] r[i]).image_height > 0 by {
            vstd::arithmetic::div_mod::lemma_mod_pos_bound(i - m, m);
            let a = (i - m) % m;
            assert(0 <= order[a] < m);
        }
        assert forall|i: int| m <= i < r.len() - 1 implies (#[trigger] r[i + 1]).offset > r[i].offset by {
            assert(r[i].image_height > 0);
        }
        assert forall|k: int| m <= k < r.len() - 1 implies (#[trigger] r[k]).image_height >= 1 by {
            assert(r[k].image_height > 0);
        }
        lemma_stacked_growth(r, m, r.len() - 1);
        assert(r[r.len() - 1].offset < target_height);
    }
}

} // verus!
