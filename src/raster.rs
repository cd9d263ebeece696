use vstd::prelude::*;
use vstd::arithmetic::div_mod::lemma_fundamental_div_mod_converse;

verus! {

/// The pixel `(i, j)` that comes `k`-th in a scan of a `width`-wide raster
/// of `height` rows: rows from the top (`j = height - 1`) down, each row
/// from left (`i = 0`) to right.
pub open spec fn scan_pixel(width: int, height: int, k: int) -> (int, int) {
    (k % width, height - 1 - k / width)
}

/// The position in the scan of pixel `(i, j)`.
pub open spec fn scan_index(width: int, height: int, i: int, j: int) -> int {
    (height - 1 - j) * width + i
}

/// Scan position and pixel determine each other.
pub proof fn lemma_scan_index_inverse(width: int, height: int, i: int, j: int)
    requires
        0 <= i < width,
        0 <= j < height,
    ensures
        0 <= scan_index(width, height, i, j) < width * height,
        scan_pixel(width, height, scan_index(width, height, i, j)) == (i, j),
{
    let row = height - 1 - j;
    lemma_fundamental_div_mod_converse(scan_index(width, height, i, j), width, row, i);
    assert(row * width + i < width * height) by (nonlinear_arith)
        requires
            0 <= row < height,
            0 <= i < width,
    ;
}

/// The pixel at position `k` of the scan of a `width` by `height` raster.
pub fn pixel_at(width: u32, height: u32, k: u64) -> (r: (u32, u32))
    requires
        k < width * height,
    ensures
        r.0 as int == scan_pixel(width as int, height as int, k as int).0,
        r.1 as int == scan_pixel(width as int, height as int, k as int).1,
{
    proof {
        assert(width > 0) by (nonlinear_arith)
            requires
                k < width * height,
                0 <= k,
                0 <= height,
        ;
        assert((k as int) / (width as int) < height) by (nonlinear_arith)
            requires
                k < width * height,
                width > 0,
                0 <= k,
        ;
    }
    let w: u64 = width as u64;
    let i: u64 = k % w;
    let row: u64 = k / w;
    (i as u32, height - 1 - row as u32)
}

/// Every pixel of a `width` by `height` raster, in scan order.
pub fn scan_order(width: u32, height: u32) -> (r: Vec<(u32, u32)>)
    requires
        width * height <= usize::MAX,
    ensures
        r@.len() == width * height,
        forall|k: int|
            0 <= k < r@.len() ==> (#[trigger] r@[k]).0 as int == scan_pixel(width as int, height as int, k).0
                && r@[k].1 as int == scan_pixel(width as int, height as int, k).1,
        forall|i: int, j: int|
            0 <= i < width && 0 <= j < height ==> (r@[scan_index(width as int, height as int, i, j)].0 == i
                && r@[scan_index(width as int, height as int, i, j)].1 == j),
{
    let mut r: Vec<(u32, u32)> = Vec::new();
    let mut row: u32 = 0;
    while row < height
        invariant
            row <= height,
            width * height <= usize::MAX,
            r@.len() == row * width,
            forall|k: int|
                0 <= k < r@.len() ==> (#[trigger] r@[k]).0 as int == scan_pixel(width as int, height as int, k).0
                    && r@[k].1 as int == scan_pixel(width as int, height as int, k).1,
        decreases height - row,
    {
        let j: u32 = height - 1 - row;
        let mut i: u32 = 0;
        while i < width
            invariant
                row < height,
                j == height - 1 - row,
                i <= width,
                width * height <= usize::MAX,
                r@.len() == row * width + i,
                forall|k: int|
                    0 <= k < r@.len() ==> (#[trigger] r@[k]).0 as int == scan_pixel(width as int, height as int, k).0
                        && r@[k].1 as int == scan_pixel(width as int, height as int, k).1,
            decreases width - i,
        {
            proof {
                lemma_fundamental_div_mod_converse(row * width + i, width as int, row as int, i as int);
                assert(row * width + i < width * height) by (nonlinear_arith)
                    requires
                        row < height,
                        i < width,
                ;
            }
            r.push((i, j));
            i = i + 1;
        }
        proof {
            assert((row + 1) * width == row * width + width) by (nonlinear_arith);
        }
        row = row + 1;
    }
    proof {
        assert(row * width == width * height) by (nonlinear_arith)
            requires
                row == height,
        ;
        assert forall|i: int, j: int| 0 <= i < width && 0 <= j < height implies (r@[scan_index(width as int, height as int, i, j)].0 == i
                && r@[scan_index(width as int, height as int, i, j)].1 == j) by {
            lemma_scan_index_inverse(width as int, height as int, i, j);
            let k = scan_index(width as int, height as int, i, j);
            assert(r@[k].0 as int == scan_pixel(width as int, height as int, k).0);
        }
    }
    r
}

} // verus!
