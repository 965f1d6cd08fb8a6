//! The order in which the pixels of an image are produced and stored: row by
//! row from the top, each row from left to right, while the rows themselves
//! are counted from the bottom as the camera counts them.

use vstd::arithmetic::div_mod::{
    lemma_fundamental_div_mod, lemma_fundamental_div_mod_converse, lemma_mod_bound,
};
use vstd::prelude::*;

verus! {

/// Where the pixel with scan index `k` lies: its column counted from the
/// left, and its row counted from the bottom. The scan starts in the top row
/// and runs through each row from left to right.
pub open spec fn scan_position(width: u32, height: u32, k: nat) -> (u32, u32)
    recommends
        k < width * height,
{
    ((k % (width as nat)) as u32, (height - 1 - k / (width as nat)) as u32)
}

/// The scan index of the pixel in column `x` of the row `y` above the bottom.
pub open spec fn scan_index(width: u32, height: u32, x: u32, y: u32) -> nat
    recommends
        x < width,
        y < height,
{
    ((height - 1 - y) * width + x) as nat
}

/// Within an image, the scan leads to a position inside it.
pub proof fn lemma_scan_in_bounds(width: u32, height: u32, k: nat)
    requires
        k < width * height,
    ensures
        scan_position(width, height, k).0 == k % (width as nat),
        scan_position(width, height, k).1 == height - 1 - k / (width as nat),
        scan_position(width, height, k).0 < width,
        scan_position(width, height, k).1 < height,
{
    let w = width as int;
    let h = height as int;
    assert(w > 0) by (nonlinear_arith)
        requires
            0 <= k < w * h,
            0 <= w,
    ;
    lemma_fundamental_div_mod(k as int, w);
    lemma_mod_bound(k as int, w);
    assert(0 <= (k as int) / w < h) by (nonlinear_arith)
        requires
            0 <= k < w * h,
            0 < w,
            k == w * ((k as int) / w) + (k as int) % w,
            0 <= (k as int) % w < w,
    ;
}

/// The scan index of the position that the scan reaches at index `k` is `k`.
pub proof fn lemma_scan_index_of_position(width: u32, height: u32, k: nat)
    requires
        k < width * height,
    ensures
        ({
            let at = scan_position(width, height, k);
            scan_index(width, height, at.0, at.1) == k
        }),
{
    lemma_scan_in_bounds(width, height, k);
    let w = width as int;
    lemma_fundamental_div_mod(k as int, w);
    assert(((k as int) / w) * w == w * ((k as int) / w)) by (nonlinear_arith);
}

/// Every position of the image is reached, at its own scan index.
pub proof fn lemma_scan_position_of_index(width: u32, height: u32, x: u32, y: u32)
    requires
        x < width,
        y < height,
    ensures
        scan_index(width, height, x, y) < width * height,
        scan_position(width, height, scan_index(width, height, x, y)) == (x, y),
{
    let w = width as int;
    let h = height as int;
    let row = h - 1 - y;
    let k = row * w + x;
    assert(0 <= k < w * h) by (nonlinear_arith)
        requires
            0 <= row <= h - 1,
            0 <= x < w,
            k == row * w + x,
    ;
    lemma_fundamental_div_mod_converse(k, w, row, x as int);
}

/// The scan begins in the left column of the top row and ends in the right
/// column of the bottom row.
pub proof fn lemma_scan_ends(width: u32, height: u32)
    requires
        width > 0,
        height > 0,
    ensures
        scan_position(width, height, 0) == (0u32, (height - 1) as u32),
        scan_position(width, height, (width * height - 1) as nat) == ((width - 1) as u32, 0u32),
{
    lemma_scan_position_of_index(width, height, 0, (height - 1) as u32);
    lemma_scan_position_of_index(width, height, (width - 1) as u32, 0);
    assert((height - 1 - 0) * width + (width - 1) == width * height - 1) by (nonlinear_arith);
    assert((height - 1 - (height - 1)) * width + 0 == 0) by (nonlinear_arith);
}

} // verus!
