use vstd::prelude::*;
use crate::grid::{ImageGrid, OrgImageInfo, Entry, ceil_div, pack, create_image_grid};
use crate::score::{wasted, any_short};

verus! {

/// Why no layout could be chosen.
#[derive(PartialEq, Eq, Structural, Debug, Clone, Copy)]
pub enum NoLayoutReason {
    /// There are too few images for any column count to be tried.
    RangeTooSmall,
    /// Every column count tried leaves some column short of the canvas height.
    ConstraintTooStrict,
}

/// The ways in which choosing a layout fails.
#[derive(PartialEq, Eq, Structural, Debug, Clone, Copy)]
pub enum MosaicError {
    /// Fewer than two images: there is nothing to arrange.
    InsufficientImages,
    /// No column count gives an acceptable layout.
    NoViableLayout(NoLayoutReason),
}

/// The column counts tried for `n` images: `2 <= k < n / 2`.
pub open spec fn in_range(n: int, k: int) -> bool {
    2 <= k < n / 2
}

/// The layout packed for `k` columns on a canvas `width` pixels wide.
pub open spec fn candidate(images: Seq<OrgImageInfo>, width: int, k: int) -> Seq<Seq<Entry>> {
    pack(images, k as nat, ceil_div(width, k))
}

/// The wasted pixels of the layout for `k` columns.
pub open spec fn candidate_score(images: Seq<OrgImageInfo>, width: int, height: int, k: int) -> int {
    wasted(candidate(images, width, k), ceil_div(width, k), height)
}

/// The layout for `k` columns may be chosen: whitespace is allowed, or no
/// column of it is shorter than the canvas.
pub open spec fn eligible(
    images: Seq<OrgImageInfo>,
    width: int,
    height: int,
    allow_whitespace: bool,
    k: int,
) -> bool {
    allow_whitespace || !any_short(candidate(images, width, k), height)
}

/// `k` is the column count to choose: among the eligible counts in range it
/// has the fewest wasted pixels, and it is the smallest such count.
pub open spec fn is_best(
    images: Seq<OrgImageInfo>,
    width: int,
    height: int,
    allow_whitespace: bool,
    k: int,
) -> bool {
    &&& in_range(images.len() as int, k)
    &&& eligible(images, width, height, allow_whitespace, k)
    &&& forall|j: int|
        in_range(images.len() as int, j) && #[trigger] eligible(images, width, height, allow_whitespace, j)
            ==> candidate_score(images, width, height, k) <= candidate_score(images, width, height, j)
    &&& forall|j: int|
        2 <= j < k && #[trigger] eligible(images, width, height, allow_whitespace, j)
            ==> candidate_score(images, width, height, k) < candidate_score(images, width, height, j)
}

/// Tries every column count `k` with `2 <= k < images.len() / 2` and returns
/// the packed layout with the fewest wasted pixels (the smallest `k` among
/// equals). Unless `allow_whitespace`, layouts with a column shorter than
/// `height` are not considered.
pub fn find_best_grid(
    org_image_info: &[OrgImageInfo],
    width: u32,
    height: u32,
    allow_whitespace: bool,
) -> (r: Result<ImageGrid, MosaicError>)
    requires
        org_image_info@.len() <= u32::MAX,
        forall|i: int| 0 <= i < org_image_info@.len() ==> (#[trigger] org_image_info@[i]).wf(),
    ensures
        match r {
            Ok(g) => {
                &&& g.wf()
                &&& is_best(org_image_info@, width as int, height as int, allow_whitespace, g.number_of_columns as int)
                &&& g.column_width == ceil_div(width as int, g.number_of_columns as int)
                &&& g.layout() == candidate(org_image_info@, width as int, g.number_of_columns as int)
            },
            Err(MosaicError::InsufficientImages) => org_image_info@.len() < 2,
            Err(MosaicError::NoViableLayout(NoLayoutReason::RangeTooSmall)) => {
                2 <= org_image_info@.len() && org_image_info@.len() / 2 <= 2
            },
            Err(MosaicError::NoViableLayout(NoLayoutReason::ConstraintTooStrict)) => {
                &&& org_image_info@.len() / 2 > 2
                &&& forall|k: int| in_range(org_image_info@.len() as int, k)
                    ==> !#[trigger] eligible(org_image_info@, width as int, height as int, allow_whitespace, k)
            },
        },
{
    let ghost images = org_image_info@;
    let ghost w = width as int;
    let ghost h = height as int;
    let n = org_image_info.len();
    if n < 2 {
        return Err(MosaicError::InsufficientImages);
    }
    if n / 2 <= 2 {
        return Err(MosaicError::NoViableLayout(NoLayoutReason::RangeTooSmall));
    }
    let mut best: Option<(ImageGrid, u128)> = None;
    let mut k: usize = 2;
    while k < n / 2
        invariant
            n == images.len(),
            images == org_image_info@,
            images.len() <= u32::MAX,
            forall|i: int| 0 <= i < images.len() ==> (#[trigger] images[i]).wf(),
            2 <= k <= n / 2,
            w == width,
            h == height,
            match best {
                None => forall|j: int| 2 <= j < k ==> !#[trigger] eligible(images, w, h, allow_whitespace, j),
                Some((g, s)) => {
                    &&& g.wf()
                    &&& 2 <= g.number_of_columns < k
                    &&& g.column_width == ceil_div(w, g.number_of_columns as int)
                    &&& g.layout() == candidate(images, w, g.number_of_columns as int)
                    &&& s == candidate_score(images, w, h, g.number_of_columns as int)
                    &&& eligible(images, w, h, allow_whitespace, g.number_of_columns as int)
                    &&& forall|j: int| 2 <= j < k && #[trigger] eligible(images, w, h, allow_whitespace, j)
                        ==> s <= candidate_score(images, w, h, j)
                    &&& forall|j: int| 2 <= j < g.number_of_columns && #[trigger] eligible(images, w, h, allow_whitespace, j)
                        ==> s < candidate_score(images, w, h, j)
                },
            },
        decreases n / 2 - k,
    {
        let grid = create_image_grid(k as u32, width, org_image_info);
        let ok = allow_whitespace || !grid.has_empty_space(height);
        assert(ok == eligible(images, w, h, allow_whitespace, k as int));
        if ok {
            let score = grid.get_wasted_pixels(height);
            let better = match &best {
                None => true,
                Some((_, s)) => score < *s,
            };
            if better {
                best = Some((grid, score));
            }
        }
        k += 1;
    }
    match best {
        None => Err(MosaicError::NoViableLayout(NoLayoutReason::ConstraintTooStrict)),
        Some((g, _)) => Ok(g),
    }
}

} // verus!
