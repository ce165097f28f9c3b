use vstd::prelude::*;
use crate::grid::OrgImageInfo;

verus! {

/// The aspect ratio (height over width) of `a` is at most that of `b`.
pub open spec fn ratio_le(a: OrgImageInfo, b: OrgImageInfo) -> bool {
    a.height * b.width <= b.height * a.width
}

/// The images are in ascending order of aspect ratio.
pub open spec fn sorted_by_ratio(s: Seq<OrgImageInfo>) -> bool {
    forall|i: int, j: int| 0 <= i < j < s.len() ==> ratio_le(#[trigger] s[i], #[trigger] s[j])
}

/// `a` and `b` have the same aspect ratio.
pub open spec fn same_ratio(a: OrgImageInfo, b: OrgImageInfo) -> bool {
    a.height * b.width == b.height * a.width
}

/// The images of `s` with the same aspect ratio as `y`, in their order in `s`.
pub open spec fn ratio_class(s: Seq<OrgImageInfo>, y: OrgImageInfo) -> Seq<OrgImageInfo> {
    s.filter(|x: OrgImageInfo| same_ratio(x, y))
}

proof fn lemma_same_ratio_trans(a: OrgImageInfo, b: OrgImageInfo, y: OrgImageInfo)
    requires
        y.wf(),
        same_ratio(a, y),
        same_ratio(b, y),
    ensures
        same_ratio(a, b),
{
    let (ah, aw, bh, bw, yh, yw) = (
        a.height as int,
        a.width as int,
        b.height as int,
        b.width as int,
        y.height as int,
        y.width as int,
    );
    assert(ah * bw == bh * aw) by (nonlinear_arith)
        requires
            ah * yw == yh * aw,
            bh * yw == yh * bw,
            yw > 0,
    {
        assert(ah * bw * yw == yh * aw * bw);
        assert(bh * aw * yw == yh * bw * aw);
        assert(ah * bw * yw == bh * aw * yw);
    }
}

proof fn lemma_filter_none(s: Seq<OrgImageInfo>, pred: spec_fn(OrgImageInfo) -> bool)
    requires
        forall|k: int| 0 <= k < s.len() ==> !pred(#[trigger] s[k]),
    ensures
        s.filter(pred) == Seq::<OrgImageInfo>::empty(),
    decreases s.len(),
{
    reveal(Seq::filter);
    if s.len() > 0 {
        lemma_filter_none(s.drop_last(), pred);
        assert(!pred(s[s.len() - 1]));
    }
}

proof fn lemma_ratio_trans(a: OrgImageInfo, b: OrgImageInfo, c: OrgImageInfo)
    requires
        a.wf(),
        b.wf(),
        c.wf(),
        ratio_le(a, b),
        ratio_le(b, c),
    ensures
        ratio_le(a, c),
{
    let (ah, aw, bh, bw, ch, cw) = (
        a.height as int,
        a.width as int,
        b.height as int,
        b.width as int,
        c.height as int,
        c.width as int,
    );
    assert(ah * cw <= ch * aw) by (nonlinear_arith)
        requires
            ah * bw <= bh * aw,
            bh * cw <= ch * bw,
            aw > 0,
            bw > 0,
            cw > 0,
            ah >= 0,
            ch >= 0,
    {
        assert(ah * bw * cw <= bh * aw * cw);
        assert(bh * cw * aw <= ch * bw * aw);
        assert(ah * cw * bw <= ch * aw * bw);
    }
}

/// Whether the aspect ratio of `a` is at most that of `b`.
pub fn ratio_at_most(a: &OrgImageInfo, b: &OrgImageInfo) -> (r: bool)
    ensures
        r == ratio_le(*a, *b),
{
    proof {
        assert(a.height * b.width <= u32::MAX * u32::MAX) by (nonlinear_arith)
            requires
                a.height <= u32::MAX,
                b.width <= u32::MAX,
        ;
        assert(b.height * a.width <= u32::MAX * u32::MAX) by (nonlinear_arith)
            requires
                b.height <= u32::MAX,
                a.width <= u32::MAX,
        ;
    }
    a.height as u64 * b.width as u64 <= b.height as u64 * a.width as u64
}

/// Returns the images in ascending order of aspect ratio; images of equal
/// ratio keep their order.
pub fn sort_by_aspect_ratio(images: &Vec<OrgImageInfo>) -> (r: Vec<OrgImageInfo>)
    requires
        forall|i: int| 0 <= i < images@.len() ==> (#[trigger] images@[i]).wf(),
    ensures
        r@.to_multiset() == images@.to_multiset(),
        sorted_by_ratio(r@),
        forall|y: OrgImageInfo| y.wf() ==> #[trigger] ratio_class(r@, y) == ratio_class(images@, y),
{
    broadcast use vstd::seq_lib::to_multiset_build, vstd::seq_lib::to_multiset_insert;
    let mut r: Vec<OrgImageInfo> = Vec::new();
    let mut i: usize = 0;
    proof {
        assert(images@.subrange(0, 0) =~= Seq::<OrgImageInfo>::empty());
        assert(r@ =~= Seq::<OrgImageInfo>::empty());
    }
    while i < images.len()
        invariant
            i <= images@.len(),
            forall|k: int| 0 <= k < images@.len() ==> (#[trigger] images@[k]).wf(),
            forall|k: int| 0 <= k < r@.len() ==> (#[trigger] r@[k]).wf(),
            r@.to_multiset() == images@.subrange(0, i as int).to_multiset(),
            r@.len() == i,
            sorted_by_ratio(r@),
            forall|y: OrgImageInfo| y.wf() ==> #[trigger] ratio_class(r@, y) == ratio_class(images@.subrange(0, i as int), y),
        decreases images@.len() - i,
    {
        let x = images[i];
        assert(images@[i as int].wf());
        let mut pos: usize = 0;
        while pos < r.len() && ratio_at_most(&r[pos], &x)
            invariant
                pos <= r@.len(),
                forall|a: int| 0 <= a < pos ==> ratio_le(#[trigger] r@[a], x),
            decreases r@.len() - pos,
        {
            pos += 1;
        }
        let ghost old_r = r@;
        r.insert(pos, x);
        proof {
            assert(images@.subrange(0, i + 1) =~= images@.subrange(0, i as int).push(x));
            vstd::seq_lib::to_multiset_insert(old_r, pos as int, x);
            vstd::seq_lib::to_multiset_build(images@.subrange(0, i as int), x);
            assert(r@.to_multiset() =~= images@.subrange(0, i + 1).to_multiset());
            if pos < old_r.len() {
                assert(!ratio_le(old_r[pos as int], x));
                assert(ratio_le(x, old_r[pos as int])) by (nonlinear_arith)
                    requires
                        !(old_r[pos as int].height * x.width <= x.height * old_r[pos as int].width),
                ;
            }
            assert forall|a: int, b: int| 0 <= a < b < r@.len() implies ratio_le(#[trigger] r@[a], #[trigger] r@[b]) by {
                if b < pos {
                    assert(r@[a] == old_r[a] && r@[b] == old_r[b]);
                } else if b == pos {
                    assert(r@[a] == old_r[a]);
                } else if a < pos {
                    assert(r@[a] == old_r[a] && r@[b] == old_r[b - 1]);
                    lemma_ratio_trans(old_r[a], x, old_r[pos as int]);
                    if b - 1 > pos {
                        lemma_ratio_trans(old_r[a], old_r[pos as int], old_r[b - 1]);
                    }
                } else if a == pos {
                    assert(r@[b] == old_r[b - 1]);
                    if b - 1 > pos {
                        lemma_ratio_trans(x, old_r[pos as int], old_r[b - 1]);
                    }
                } else {
                    assert(r@[a] == old_r[a - 1] && r@[b] == old_r[b - 1]);
                }
            }
            assert forall|y: OrgImageInfo| y.wf() implies #[trigger] ratio_class(r@, y) == ratio_class(images@.subrange(0, i + 1), y) by {
                let pred = |z: OrgImageInfo| same_ratio(z, y);
                let a = old_r.subrange(0, pos as int);
                let b = old_r.subrange(pos as int, old_r.len() as int);
                assert(old_r =~= a + b);
                assert(r@ =~= a + seq![x] + b);
                Seq::filter_distributes_over_add(a, b, pred);
                Seq::filter_distributes_over_add(a + seq![x], b, pred);
                Seq::filter_distributes_over_add(a, seq![x], pred);
                images@.subrange(0, i as int).lemma_filter_push(x, pred);
                assert(seq![x] =~= Seq::<OrgImageInfo>::empty().push(x));
                Seq::<OrgImageInfo>::empty().lemma_filter_push(x, pred);
                assert(Seq::<OrgImageInfo>::empty().filter(pred) =~= Seq::<OrgImageInfo>::empty()) by {
                    reveal(Seq::filter);
                }
                assert(ratio_class(old_r, y) == ratio_class(images@.subrange(0, i as int), y));
                if same_ratio(x, y) {
                    assert forall|k: int| 0 <= k < b.len() implies !pred(#[trigger] b[k]) by {
                        assert(b[k] == old_r[pos + k]);
                        if k > 0 {
                            assert(ratio_le(old_r[pos as int], old_r[pos + k]));
                        }
                        if pred(b[k]) {
                            lemma_same_ratio_trans(b[k], x, y);
                            if k > 0 {
                                lemma_ratio_trans(old_r[pos as int], b[k], x);
                            }
                        }
                    }
                    lemma_filter_none(b, pred);
                    assert(a.filter(pred) + b.filter(pred) =~= a.filter(pred));
                    assert(a.filter(pred) + seq![x] + b.filter(pred) =~= a.filter(pred).push(x));
                } else {
                    assert(a.filter(pred) + Seq::<OrgImageInfo>::empty() =~= a.filter(pred));
                }
            }
            assert forall|k: int| 0 <= k < r@.len() implies (#[trigger] r@[k]).wf() by {
                if k < pos {
                    assert(r@[k] == old_r[k]);
                } else if k > pos {
                    assert(r@[k] == old_r[k - 1]);
                }
            }
        }
        i += 1;
    }
    proof {
        assert(images@.subrange(0, i as int) =~= images@);
    }
    r
}

/// Relies on rand's `SliceRandom::shuffle` with the thread-local generator:
/// it only swaps elements of the slice, so the images are permuted.
#[verifier::external_body]
fn shuffle_images(images: &mut Vec<OrgImageInfo>)
    ensures
        final(images)@.to_multiset() == old(images)@.to_multiset(),
{
    rand::seq::SliceRandom::shuffle(images.as_mut_slice(), &mut rand::thread_rng());
}

/// The order in which images are packed: ascending aspect ratio, then, when
/// `randomize` is set, shuffled at random.
pub fn order_images(images: &Vec<OrgImageInfo>, randomize: bool) -> (r: Vec<OrgImageInfo>)
    requires
        forall|i: int| 0 <= i < images@.len() ==> (#[trigger] images@[i]).wf(),
    ensures
        r@.to_multiset() == images@.to_multiset(),
        !randomize ==> sorted_by_ratio(r@),
        !randomize ==> forall|y: OrgImageInfo| y.wf() ==> #[trigger] ratio_class(r@, y) == ratio_class(images@, y),
{
    let mut r = sort_by_aspect_ratio(images);
    if randomize {
        shuffle_images(&mut r);
    }
    r
}

} // verus!
