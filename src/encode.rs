//! Byte layout of the finished image: four bytes per pixel, row-major, red,
//! green and blue as quantized, then an opaque alpha.
use vstd::prelude::*;

verus! {

/// The alpha byte of every pixel: fully opaque.
pub const OPAQUE: u8 = 255;

/// The RGBA bytes of `pixels`: byte `4 * k + c` is channel `c` of pixel `k`
/// for `c < 3`, and byte `4 * k + 3` is opaque.
pub open spec fn rgba_bytes(pixels: Seq<[u8; 3]>) -> Seq<u8> {
    Seq::new(
        4 * pixels.len(),
        |m: int|
            if m % 4 == 3 {
                OPAQUE
            } else {
                pixels[m / 4]@[m % 4]
            },
    )
}

/// Lays the quantized pixels out as RGBA bytes with an opaque alpha.
pub fn pack_rgba(pixels: &Vec<[u8; 3]>) -> (r: Vec<u8>)
    requires
        4 * pixels@.len() <= usize::MAX,
    ensures
        r@ == rgba_bytes(pixels@),
{
    let n = pixels.len();
    let mut out: Vec<u8> = Vec::with_capacity(4 * n);
    let mut k: usize = 0;
    while k < n
        invariant
            n == pixels@.len(),
            4 * n <= usize::MAX,
            k <= n,
            out@ =~= rgba_bytes(pixels@.take(k as int)),
        decreases n - k,
    {
        let px = pixels[k];
        out.push(px[0]);
        out.push(px[1]);
        out.push(px[2]);
        out.push(OPAQUE);
        proof {
            let before = pixels@.take(k as int);
            let after = pixels@.take(k + 1);
            assert forall|m: int| 0 <= m < 4 * after.len() implies out@[m] == rgba_bytes(after)[m] by {
                if m < 4 * k {
                    assert(rgba_bytes(before)[m] == rgba_bytes(after)[m]);
                } else {
                    assert(m / 4 == k);
                }
            }
        }
        k = k + 1;
    }
    assert(pixels@.take(n as int) =~= pixels@);
    out
}

} // verus!
