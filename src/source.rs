use vstd::prelude::*;

verus! {

/// The file extensions of the photographs that are read: `png`, `jpg` and
/// `jpeg`, exactly as written (ASCII `p` = 112, `n` = 110, `g` = 103,
/// `j` = 106, `e` = 101).
pub open spec fn is_image_extension_spec(ext: Seq<u8>) -> bool {
    ext == seq![112u8, 110u8, 103u8] || ext == seq![106u8, 112u8, 103u8] || ext == seq![106u8, 112u8, 101u8, 103u8]
}

/// Whether a file with extension `ext` (its bytes, without the dot) is read
/// as a photograph.
pub fn is_image_extension(ext: &[u8]) -> (r: bool)
    ensures
        r == is_image_extension_spec(ext@),
{
    let n = ext.len();
    let r = if n == 3 {
        (ext[0] == 112u8 && ext[1] == 110u8 && ext[2] == 103u8) || (ext[0] == 106u8 && ext[1] == 112u8 && ext[2] == 103u8)
    } else if n == 4 {
        ext[0] == 106u8 && ext[1] == 112u8 && ext[2] == 101u8 && ext[3] == 103u8
    } else {
        false
    };
    proof {
        if n == 3 {
            if ext@[0] == 112u8 && ext@[1] == 110u8 && ext@[2] == 103u8 {
                assert(ext@ =~= seq![112u8, 110u8, 103u8]);
            }
            if ext@[0] == 106u8 && ext@[1] == 112u8 && ext@[2] == 103u8 {
                assert(ext@ =~= seq![106u8, 112u8, 103u8]);
            }
        }
        if n == 4 && r {
            assert(ext@ =~= seq![106u8, 112u8, 101u8, 103u8]);
        }
        if ext@ == seq![112u8, 110u8, 103u8] || ext@ == seq![106u8, 112u8, 103u8] || ext@ == seq![106u8, 112u8, 101u8, 103u8] {
            assert(ext@.len() == n);
        }
    }
    r
}

} // verus!
