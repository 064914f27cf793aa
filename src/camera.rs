//! The pinhole camera's pixel grid. The primary ray of pixel `(i, j)` of a
//! `width` by `height` image points at the pixel's center, which lies
//! `i + 1/2 - width/2` pixels to the right of the image center and
//! `height/2 - (j + 1/2)` pixels above it. Doubled, both offsets are integers.
use vstd::prelude::*;

verus! {

/// Offset of the center of pixel `(i, j)` from the image center, in half pixels:
/// the first component grows to the right, the second upward.
pub open spec fn center_offset(i: int, j: int, width: int, height: int) -> (int, int) {
    (2 * i + 1 - width, height - 2 * j - 1)
}

/// The center of pixel `(i, j)` relative to the image center, in half pixels.
pub fn pixel_center_offset(i: usize, j: usize, width: usize, height: usize) -> (r: (i64, i64))
    requires
        i < width,
        j < height,
        2 * width <= i64::MAX,
        2 * height <= i64::MAX,
    ensures
        (r.0 as int, r.1 as int) == center_offset(i as int, j as int, width as int, height as int),
{
    let x = 2 * (i as i64) + 1 - (width as i64);
    let y = (height as i64) - 2 * (j as i64) - 1;
    (x, y)
}

/// The grid is centered: a pixel and its mirror image through the image center
/// have opposite offsets, and no pixel center lies on the image center's row or
/// column of an even-sized image.
pub proof fn lemma_offsets_centered(i: int, j: int, width: int, height: int)
    requires
        0 <= i < width,
        0 <= j < height,
    ensures
        center_offset(width - 1 - i, height - 1 - j, width, height).0 == -center_offset(
            i,
            j,
            width,
            height,
        ).0,
        center_offset(width - 1 - i, height - 1 - j, width, height).1 == -center_offset(
            i,
            j,
            width,
            height,
        ).1,
        width % 2 == 0 ==> center_offset(i, j, width, height).0 != 0,
        height % 2 == 0 ==> center_offset(i, j, width, height).1 != 0,
{
}

} // verus!
