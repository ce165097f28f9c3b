use vstd::prelude::*;
use vstd::multiset::Multiset;

verus! {

/// A source photograph as the layout sees it: its native pixel size and a
/// handle that the caller uses to find the photograph again.
#[derive(Clone, Copy, Debug, PartialEq, Eq, Structural)]
pub struct OrgImageInfo {
    pub width: u32,
    pub height: u32,
    pub id: usize,
}

impl OrgImageInfo {
    /// Both native dimensions are positive.
    pub open spec fn wf(&self) -> bool {
        self.width > 0 && self.height > 0
    }
}

/// One assigned image: its height in the column and its handle.
pub type Entry = (u32, usize);

/// Ceiling of `a / b`.
pub open spec fn ceil_div(a: int, b: int) -> int {
    (a + b - 1) / b
}

/// Height of an image of native size `width` x `height` once scaled to
/// `column_width`: `floor(column_width * height / width)`, held in a `u32`
/// (larger values saturate at `u32::MAX`).
pub open spec fn scaled_height(column_width: int, width: int, height: int) -> int {
    let h = column_width * height / width;
    if h > u32::MAX {
        u32::MAX as int
    } else {
        h
    }
}

/// The entry that the packer makes for `img` in a column of width `column_width`.
pub open spec fn entry_of(img: OrgImageInfo, column_width: int) -> Entry {
    (scaled_height(column_width, img.width as int, img.height as int) as u32, img.id)
}

/// Sum of the heights of a column's entries.
pub open spec fn sum_heights(s: Seq<Entry>) -> int
    decreases s.len(),
{
    if s.len() == 0 {
        0
    } else {
        sum_heights(s.drop_last()) + s.last().0
    }
}

/// Sum of the heights of all columns.
pub open spec fn total_height(cols: Seq<Seq<Entry>>) -> int
    decreases cols.len(),
{
    if cols.len() == 0 {
        0
    } else {
        total_height(cols.drop_last()) + sum_heights(cols.last())
    }
}

/// All entries of all columns, as a multiset.
pub open spec fn layout_entries(cols: Seq<Seq<Entry>>) -> Multiset<Entry>
    decreases cols.len(),
{
    if cols.len() == 0 {
        Multiset::empty()
    } else {
        layout_entries(cols.drop_last()).add(cols.last().to_multiset())
    }
}

/// Column `c` is the lowest among the first `n` columns: no column is
/// shorter, and every column before it is strictly taller.
pub open spec fn is_lowest_in(cols: Seq<Seq<Entry>>, n: int, c: int) -> bool {
    &&& 0 <= c < n <= cols.len()
    &&& forall|j: int| 0 <= j < n ==> sum_heights(#[trigger] cols[j]) >= sum_heights(cols[c])
    &&& forall|j: int| 0 <= j < c ==> sum_heights(#[trigger] cols[j]) > sum_heights(cols[c])
}

/// Column `c` is the shortest column, the one with the lowest index among equals.
pub open spec fn is_lowest(cols: Seq<Seq<Entry>>, c: int) -> bool {
    is_lowest_in(cols, cols.len() as int, c)
}

/// The column that receives the next image.
pub open spec fn lowest_column(cols: Seq<Seq<Entry>>) -> int {
    choose|c: int| #[trigger] is_lowest(cols, c)
}

/// `cols` after `e` is appended to its lowest column.
pub open spec fn place(cols: Seq<Seq<Entry>>, e: Entry) -> Seq<Seq<Entry>> {
    let c = lowest_column(cols);
    cols.update(c, cols[c].push(e))
}

/// The layout that greedy packing gives: `images` placed in order, each on
/// the shortest of `n` columns of width `column_width`.
pub open spec fn pack(images: Seq<OrgImageInfo>, n: nat, column_width: int) -> Seq<Seq<Entry>>
    decreases images.len(),
{
    if images.len() == 0 {
        Seq::new(n, |i: int| Seq::<Entry>::empty())
    } else {
        place(pack(images.drop_last(), n, column_width), entry_of(images.last(), column_width))
    }
}

/// A column of stacked images.
#[derive(Debug)]
pub struct ImageColumn {
    pub image_paths: Vec<Entry>,
    pub column_height: u64,
}

impl ImageColumn {
    /// The running height is the sum of the entries' heights.
    pub open spec fn wf(&self) -> bool {
        self.column_height == sum_heights(self.image_paths@)
    }
}

/// A candidate layout: `number_of_columns` columns of `column_width` pixels.
#[derive(Debug)]
pub struct ImageGrid {
    pub column_width: u32,
    pub columns: Vec<ImageColumn>,
    pub number_of_columns: u32,
}

impl ImageGrid {
    /// The entries of each column.
    pub open spec fn layout(&self) -> Seq<Seq<Entry>> {
        self.columns@.map_values(|c: ImageColumn| c.image_paths@)
    }

    pub open spec fn wf(&self) -> bool {
        &&& self.columns@.len() == self.number_of_columns
        &&& self.number_of_columns >= 1
        &&& forall|c: int| 0 <= c < self.columns@.len() ==> (#[trigger] self.columns@[c]).wf()
        &&& total_height(self.layout()) <= u64::MAX
    }
}

impl ImageGrid {
    /// Appends an image of `image_height` to the shortest column, the one
    /// with the lowest index among columns of equal height.
    pub fn add_to_lowest_column(&mut self, image_height: u32, image_path: usize)
        requires
            old(self).wf(),
            total_height(old(self).layout()) + image_height <= u64::MAX,
        ensures
            final(self).wf(),
            final(self).layout() == place(old(self).layout(), (image_height, image_path)),
            final(self).column_width == old(self).column_width,
            final(self).number_of_columns == old(self).number_of_columns,
            total_height(final(self).layout()) == total_height(old(self).layout()) + image_height,
    {
        let ghost cols = self.layout();
        let mut best: usize = 0;
        let mut i: usize = 1;
        while i < self.columns.len()
            invariant
                1 <= i <= self.columns@.len(),
                self.wf(),
                cols == self.layout(),
                is_lowest_in(cols, i as int, best as int),
            decreases self.columns@.len() - i,
        {
            assert(self.columns@[i as int].wf());
            assert(self.columns@[best as int].wf());
            if self.columns[i].column_height < self.columns[best].column_height {
                best = i;
            }
            i += 1;
        }
        let e = (image_height, image_path);
        proof {
            lemma_lowest_column(cols, best as int);
            lemma_column_le_total(cols, best as int);
            lemma_total_update(cols, best as int, cols[best as int].push(e));
            lemma_sum_heights_push(cols[best as int], e);
            assert(self.columns@[best as int].wf());
        }
        let ghost old_columns = self.columns@;
        let col = &mut self.columns[best];
        col.image_paths.push(e);
        col.column_height = col.column_height + image_height as u64;
        proof {
            assert(self.columns@ == old_columns.update(best as int, self.columns@[best as int]));
            assert(self.layout() =~= cols.update(best as int, cols[best as int].push(e)));
            assert forall|c: int| 0 <= c < self.columns@.len() implies (#[trigger] self.columns@[c]).wf() by {
                if c != best {
                    assert(old_columns[c].wf());
                }
            }
        }
    }
}

/// `ceil(target_width / number_of_columns)`, the width of each column.
pub fn column_width_for(target_width: u32, number_of_columns: u32) -> (r: u32)
    requires
        number_of_columns >= 1,
    ensures
        r == ceil_div(target_width as int, number_of_columns as int),
{
    let t = target_width as u64;
    let n = number_of_columns as u64;
    let w = (t + n - 1) / n;
    proof {
        assert((t + n - 1) / (n as int) <= t) by (nonlinear_arith)
            requires
                n >= 1,
                t >= 0,
        {
            if t >= 1 {
                assert(t + n - 1 <= t * n);
            } else {
                assert(t + n - 1 < n);
            }
        }
    }
    w as u32
}

/// The height of an image of native size `width` x `height` in a column of
/// `column_width` pixels.
pub fn scaled_image_height(column_width: u32, width: u32, height: u32) -> (r: u32)
    requires
        width > 0,
    ensures
        r == scaled_height(column_width as int, width as int, height as int),
{
    proof {
        assert(column_width * height <= u32::MAX * u32::MAX) by (nonlinear_arith)
            requires
                column_width <= u32::MAX,
                height <= u32::MAX,
        ;
    }
    let h = (column_width as u64 * height as u64) / width as u64;
    if h > u32::MAX as u64 {
        u32::MAX
    } else {
        h as u32
    }
}

/// Packs the images, in the order given, into `number_of_columns` columns of
/// width `ceil(target_width / number_of_columns)`: each image, scaled to the
/// column width, goes on the column that is shortest at that moment.
pub fn create_image_grid(
    number_of_columns: u32,
    target_width: u32,
    org_image_info: &[OrgImageInfo],
) -> (grid: ImageGrid)
    requires
        number_of_columns >= 1,
        org_image_info@.len() <= u32::MAX,
        forall|i: int| 0 <= i < org_image_info@.len() ==> (#[trigger] org_image_info@[i]).wf(),
    ensures
        grid.wf(),
        grid.number_of_columns == number_of_columns,
        grid.column_width == ceil_div(target_width as int, number_of_columns as int),
        grid.layout() == pack(org_image_info@, number_of_columns as nat, grid.column_width as int),
{
    let column_width = column_width_for(target_width, number_of_columns);
    let mut columns: Vec<ImageColumn> = Vec::new();
    let mut j: u32 = 0;
    while j < number_of_columns
        invariant
            j <= number_of_columns,
            columns@.len() == j,
            forall|c: int| 0 <= c < j ==> (#[trigger] columns@[c]).image_paths@ == Seq::<Entry>::empty()
                && columns@[c].column_height == 0,
        decreases number_of_columns - j,
    {
        columns.push(ImageColumn { image_paths: Vec::new(), column_height: 0 });
        j += 1;
    }
    let mut grid = ImageGrid { column_width, columns, number_of_columns };
    proof {
        let s = Seq::new(number_of_columns as nat, |i: int| Seq::<Entry>::empty());
        assert(grid.layout() =~= s);
        assert(org_image_info@.subrange(0, 0) =~= Seq::<OrgImageInfo>::empty());
        assert forall|c: int| 0 <= c < grid.columns@.len() implies (#[trigger] grid.columns@[c]).wf() by {
            assert(grid.columns@[c].image_paths@ == Seq::<Entry>::empty());
        }
        lemma_total_zero(s);
    }
    let mut i: usize = 0;
    while i < org_image_info.len()
        invariant
            i <= org_image_info@.len() <= u32::MAX,
            forall|k: int| 0 <= k < org_image_info@.len() ==> (#[trigger] org_image_info@[k]).wf(),
            grid.wf(),
            grid.number_of_columns == number_of_columns,
            grid.column_width == column_width,
            grid.layout() == pack(org_image_info@.subrange(0, i as int), number_of_columns as nat, column_width as int),
            total_height(grid.layout()) <= i * u32::MAX,
        decreases org_image_info@.len() - i,
    {
        let image = &org_image_info[i];
        assert(org_image_info@[i as int].wf());
        let new_height = scaled_image_height(column_width, image.width, image.height);
        proof {
            assert(i * u32::MAX + u32::MAX == (i + 1) * u32::MAX) by (nonlinear_arith);
            assert((i + 1) * u32::MAX <= u32::MAX * u32::MAX) by (nonlinear_arith)
                requires
                    i + 1 <= u32::MAX,
            ;
        }
        grid.add_to_lowest_column(new_height, image.id);
        proof {
            let pre = org_image_info@.subrange(0, i + 1);
            assert(pre.drop_last() =~= org_image_info@.subrange(0, i as int));
            assert(i * u32::MAX + u32::MAX == (i + 1) * u32::MAX) by (nonlinear_arith);
        }
        i += 1;
    }
    assert(org_image_info@.subrange(0, i as int) =~= org_image_info@);
    grid
}

proof fn lemma_total_zero(cols: Seq<Seq<Entry>>)
    requires
        forall|c: int| 0 <= c < cols.len() ==> #[trigger] cols[c] == Seq::<Entry>::empty(),
    ensures
        total_height(cols) == 0,
    decreases cols.len(),
{
    if cols.len() > 0 {
        lemma_total_zero(cols.drop_last());
        assert(cols.last() == Seq::<Entry>::empty());
    }
}

pub proof fn lemma_sum_heights_nonneg(s: Seq<Entry>)
    ensures
        sum_heights(s) >= 0,
    decreases s.len(),
{
    if s.len() > 0 {
        lemma_sum_heights_nonneg(s.drop_last());
    }
}

pub proof fn lemma_sum_heights_push(s: Seq<Entry>, e: Entry)
    ensures
        sum_heights(s.push(e)) == sum_heights(s) + e.0,
{
    assert(s.push(e).drop_last() =~= s);
}

/// Replacing one column changes the total by the difference of the two columns.
proof fn lemma_total_update(cols: Seq<Seq<Entry>>, c: int, s: Seq<Entry>)
    requires
        0 <= c < cols.len(),
    ensures
        total_height(cols.update(c, s)) == total_height(cols) - sum_heights(cols[c]) + sum_heights(s),
    decreases cols.len(),
{
    let u = cols.update(c, s);
    if c == cols.len() - 1 {
        assert(u.drop_last() =~= cols.drop_last());
    } else {
        assert(u.drop_last() =~= cols.drop_last().update(c, s));
        lemma_total_update(cols.drop_last(), c, s);
    }
}

/// Each column is at most the total.
proof fn lemma_column_le_total(cols: Seq<Seq<Entry>>, c: int)
    requires
        0 <= c < cols.len(),
    ensures
        sum_heights(cols[c]) <= total_height(cols),
    decreases cols.len(),
{
    lemma_total_nonneg(cols.drop_last());
    lemma_sum_heights_nonneg(cols.last());
    if c < cols.len() - 1 {
        lemma_column_le_total(cols.drop_last(), c);
    }
}

pub proof fn lemma_total_nonneg(cols: Seq<Seq<Entry>>)
    ensures
        total_height(cols) >= 0,
    decreases cols.len(),
{
    if cols.len() > 0 {
        lemma_total_nonneg(cols.drop_last());
        lemma_sum_heights_nonneg(cols.last());
    }
}

/// Appending `e` to column `c` adds `e` to the entries of the layout.
proof fn lemma_entries_update(cols: Seq<Seq<Entry>>, c: int, e: Entry)
    requires
        0 <= c < cols.len(),
    ensures
        layout_entries(cols.update(c, cols[c].push(e))) =~= layout_entries(cols).insert(e),
    decreases cols.len(),
{
    let u = cols.update(c, cols[c].push(e));
    broadcast use vstd::seq_lib::to_multiset_build;
    if c == cols.len() - 1 {
        assert(u.drop_last() =~= cols.drop_last());
    } else {
        assert(u.drop_last() =~= cols.drop_last().update(c, cols.drop_last()[c].push(e)));
        lemma_entries_update(cols.drop_last(), c, e);
    }
}

/// Among the first `n` columns there is a lowest one.
proof fn lemma_lowest_in_exists(cols: Seq<Seq<Entry>>, n: int)
    requires
        1 <= n <= cols.len(),
    ensures
        exists|c: int| #[trigger] is_lowest_in(cols, n, c),
    decreases n,
{
    if n == 1 {
        assert(is_lowest_in(cols, 1, 0));
    } else {
        lemma_lowest_in_exists(cols, n - 1);
        let a = choose|c: int| #[trigger] is_lowest_in(cols, n - 1, c);
        if sum_heights(cols[n - 1]) < sum_heights(cols[a]) {
            assert(is_lowest_in(cols, n, n - 1));
        } else {
            assert(is_lowest_in(cols, n, a));
        }
    }
}

/// A layout with a column has exactly one lowest column.
pub proof fn lemma_lowest_column(cols: Seq<Seq<Entry>>, c: int)
    requires
        cols.len() >= 1,
    ensures
        is_lowest(cols, lowest_column(cols)),
        is_lowest(cols, c) ==> c == lowest_column(cols),
{
    lemma_lowest_in_exists(cols, cols.len() as int);
    let w = choose|c: int| #[trigger] is_lowest_in(cols, cols.len() as int, c);
    assert(is_lowest(cols, w));
    let l = lowest_column(cols);
    if is_lowest(cols, c) && c != l {
        if c < l {
            assert(sum_heights(cols[c]) > sum_heights(cols[l]));
        } else {
            assert(sum_heights(cols[l]) > sum_heights(cols[c]));
        }
    }
}

/// Packing into `n` columns gives `n` columns.
pub proof fn lemma_pack_len(images: Seq<OrgImageInfo>, n: nat, column_width: int)
    requires
        n >= 1,
    ensures
        pack(images, n, column_width).len() == n,
    decreases images.len(),
{
    if images.len() > 0 {
        lemma_pack_len(images.drop_last(), n, column_width);
        lemma_lowest_column(pack(images.drop_last(), n, column_width), 0);
    }
}

/// Every image lands in exactly one column: the entries of the packed layout
/// are, counted with multiplicity, exactly one entry per input image.
pub proof fn lemma_every_image_once(images: Seq<OrgImageInfo>, n: nat, column_width: int)
    requires
        n >= 1,
    ensures
        layout_entries(pack(images, n, column_width))
            == images.map_values(|img: OrgImageInfo| entry_of(img, column_width)).to_multiset(),
    decreases images.len(),
{
    broadcast use vstd::seq_lib::to_multiset_build;
    let f = |img: OrgImageInfo| entry_of(img, column_width);
    if images.len() == 0 {
        let cols = Seq::new(n, |i: int| Seq::<Entry>::empty());
        lemma_entries_empty(cols);
        assert(images.map_values(f) =~= Seq::<Entry>::empty());
        assert(images.map_values(f).to_multiset() =~= Multiset::empty()) by {
            broadcast use vstd::seq_lib::group_seq_properties;
        }
    } else {
        let d = images.drop_last();
        lemma_every_image_once(d, n, column_width);
        let before = pack(d, n, column_width);
        lemma_pack_len(d, n, column_width);
        lemma_lowest_column(before, 0);
        lemma_entries_update(before, lowest_column(before), entry_of(images.last(), column_width));
        assert(images.map_values(f) =~= d.map_values(f).push(entry_of(images.last(), column_width)));
    }
}

proof fn lemma_entries_empty(cols: Seq<Seq<Entry>>)
    requires
        forall|c: int| 0 <= c < cols.len() ==> #[trigger] cols[c] == Seq::<Entry>::empty(),
    ensures
        layout_entries(cols) =~= Multiset::empty(),
    decreases cols.len(),
{
    if cols.len() > 0 {
        lemma_entries_empty(cols.drop_last());
        assert(cols.last() == Seq::<Entry>::empty());
        assert(cols.last().to_multiset() =~= Multiset::empty()) by {
            broadcast use vstd::seq_lib::group_seq_properties;
        }
    }
}

/// Each image, when placed, goes to a column that no other column is
/// shorter than (the lowest index among equals), and only that column grows.
pub proof fn lemma_greedy_choice(images: Seq<OrgImageInfo>, n: nat, column_width: int, i: int)
    requires
        n >= 1,
        0 <= i < images.len(),
    ensures
        ({
            let before = pack(images.subrange(0, i), n, column_width);
            let after = pack(images.subrange(0, i + 1), n, column_width);
            exists|c: int| #[trigger] is_lowest(before, c)
                && after == before.update(c, before[c].push(entry_of(images[i], column_width)))
        }),
{
    let pre = images.subrange(0, i + 1);
    assert(pre.drop_last() =~= images.subrange(0, i));
    let before = pack(images.subrange(0, i), n, column_width);
    lemma_pack_len(images.subrange(0, i), n, column_width);
    lemma_lowest_column(before, 0);
    assert(is_lowest(before, lowest_column(before)));
}

/// Packing is deterministic: two grids built by `create_image_grid` from the
/// same images, column count and width hold the same layout.
pub proof fn lemma_packing_deterministic(
    images: Seq<OrgImageInfo>,
    number_of_columns: u32,
    target_width: u32,
    g1: ImageGrid,
    g2: ImageGrid,
)
    requires
        g1.number_of_columns == number_of_columns,
        g2.number_of_columns == number_of_columns,
        g1.column_width == ceil_div(target_width as int, number_of_columns as int),
        g2.column_width == ceil_div(target_width as int, number_of_columns as int),
        g1.layout() == pack(images, number_of_columns as nat, g1.column_width as int),
        g2.layout() == pack(images, number_of_columns as nat, g2.column_width as int),
    ensures
        g1.column_width == g2.column_width,
        g1.layout() == g2.layout(),
{
}

} // verus!
