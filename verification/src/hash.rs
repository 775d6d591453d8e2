//! Perceptual hashing for near-duplicate detection.
//!
//! A difference hash over a grey image of nine by eight pixels: each bit records
//! whether a pixel is brighter than its right neighbour. It does not change much
//! when an image is encoded again or resized.

use crate::pixels::{grey_content, stretched_grey};
use vstd::prelude::*;

verus! {

/// Columns of the grey image: one more than there are bits in a row.
pub const GRID_WIDTH: u32 = 9;

/// Rows of the grey image.
pub const GRID_HEIGHT: u32 = 8;

/// Whether the `k`th pixel that has a right neighbour, row by row, is brighter
/// than that neighbour.
pub open spec fn brighter_than_next(grid: Seq<u8>, k: int) -> bool {
    grid[9 * (k / 8) + k % 8] > grid[9 * (k / 8) + k % 8 + 1]
}

/// The bit of `h` with `k` bits above it.
pub open spec fn bit_from_top(h: u64, k: int) -> bool {
    (h >> ((63 - k) as u64)) & 1 == 1
}

/// Whether the bits of `h`, from the highest, record the comparisons in `grid`.
pub open spec fn is_difference_hash(h: u64, grid: Seq<u8>) -> bool {
    forall|k: int| 0 <= k < 64 ==> (#[trigger] bit_from_top(h, k) <==> brighter_than_next(grid, k))
}

proof fn lemma_append_bit(x: u64, b: u64, j: u64)
    by (bit_vector)
    requires
        b <= 1,
        j < 63,
    ensures
        (((x << 1u64) | b) >> ((j + 1) as u64)) & 1 == (x >> j) & 1,
        (((x << 1u64) | b) >> 0u64) & 1 == b,
{
}

proof fn lemma_round_trip(x: u64)
    by (bit_vector)
    ensures
        (x as i64) as u64 == x,
{
}

/// The difference hash of a grid of seventy-two grey bytes.
pub fn hash_of_grid(grid: &Vec<u8>) -> (r: i64)
    requires
        grid@.len() == 72,
    ensures
        is_difference_hash(r as u64, grid@),
{
    let mut bits: u64 = 0;
    let mut n: usize = 0;
    while n < 64
        invariant
            n <= 64,
            grid@.len() == 72,
            forall|k: int|
                0 <= k < n ==> (((#[trigger] (bits >> ((n - 1 - k) as u64))) & 1 == 1)
                    <==> brighter_than_next(grid@, k)),
        decreases 64 - n,
    {
        let at: usize = 9 * (n / 8) + n % 8;
        let b: u64 = if grid[at] > grid[at + 1] {
            1
        } else {
            0
        };
        let ghost before = bits;
        bits = (bits << 1) | b;
        n += 1;
        proof {
            assert forall|k: int| 0 <= k < n implies (((#[trigger] (bits >> ((n - 1 - k) as u64))) & 1
                == 1) <==> brighter_than_next(grid@, k)) by {
                if k == n - 1 {
                    lemma_append_bit(before, b, 0);
                } else {
                    let j = (n - 2 - k) as u64;
                    lemma_append_bit(before, b, j);
                    assert((n - 1 - k) as u64 == (j + 1) as u64);
                    assert((before >> ((n - 1 - 1 - k) as u64)) == before >> j);
                }
            }
        }
    }
    proof {
        lemma_round_trip(bits);
        assert forall|k: int| 0 <= k < 64 implies (#[trigger] bit_from_top(bits, k)
            <==> brighter_than_next(grid@, k)) by {
            assert((bits >> ((64 - 1 - k) as u64)) == bits >> ((63 - k) as u64));
        }
    }
    bits as i64
}

/// The difference hash of an image of any size.
pub fn dhash(img: &image::DynamicImage) -> (r: i64)
    ensures
        is_difference_hash(r as u64, grey_content(*img, GRID_WIDTH, GRID_HEIGHT)),
{
    let grid = stretched_grey(img, GRID_WIDTH, GRID_HEIGHT);
    hash_of_grid(&grid)
}

/// A grid has one difference hash.
pub proof fn law_hash_is_determined(a: u64, b: u64, grid: Seq<u8>)
    requires
        is_difference_hash(a, grid),
        is_difference_hash(b, grid),
    ensures
        a == b,
{
    lemma_same_front(a, b, grid, 0);
    assert(a >> 0u64 == a) by (bit_vector);
    assert(b >> 0u64 == b) by (bit_vector);
}

/// Two hashes of a grid agree from the bit `j` upwards.
proof fn lemma_same_front(a: u64, b: u64, grid: Seq<u8>, j: u64)
    requires
        is_difference_hash(a, grid),
        is_difference_hash(b, grid),
        j < 64,
    ensures
        a >> j == b >> j,
    decreases 64 - j,
{
    let k = 63 - j as int;
    assert((63 - k) as u64 == j);
    assert(bit_from_top(a, k) <==> bit_from_top(b, k));
    lemma_low_bit(a, j);
    lemma_low_bit(b, j);
    if j < 63 {
        lemma_same_front(a, b, grid, (j + 1) as u64);
    }
}

proof fn lemma_low_bit(x: u64, j: u64)
    by (bit_vector)
    requires
        j < 64,
    ensures
        (x >> j) & 1 == 0 || (x >> j) & 1 == 1,
        j < 63 ==> x >> j == ((x >> ((j + 1) as u64)) << 1u64) | ((x >> j) & 1),
        j == 63 ==> x >> j == (x >> j) & 1,
{
}

/// The bits of a hash go along the rows of the grid, from the highest on: the bit for
/// the pixel in column `x` of row `y` is set exactly where the pixel is brighter than
/// the one to its right.
pub proof fn law_bits_go_along_rows(h: u64, grid: Seq<u8>, x: int, y: int)
    requires
        is_difference_hash(h, grid),
        0 <= x < 8,
        0 <= y < 8,
    ensures
        (h >> ((63 - (8 * y + x)) as u64)) & 1 == 1 <==> grid[9 * y + x] > grid[9 * y + x + 1],
        GRID_WIDTH == 9,
        GRID_HEIGHT == 8,
{
    let k = 8 * y + x;
    assert(bit_from_top(h, k) <==> brighter_than_next(grid, k));
    assert(k / 8 == y && k % 8 == x);
}

/// A change of brightness that is the same everywhere does not change the hash.
pub proof fn law_brighter_images_have_the_same_hash(a: u64, b: u64, grid: Seq<u8>, other: Seq<u8>, by: int)
    requires
        is_difference_hash(a, grid),
        is_difference_hash(b, other),
        grid.len() == 72,
        other.len() == 72,
        forall|i: int| 0 <= i < 72 ==> #[trigger] other[i] == grid[i] + by,
    ensures
        a == b,
{
    assert forall|k: int| 0 <= k < 64 implies (#[trigger] bit_from_top(b, k) <==> brighter_than_next(
        grid,
        k,
    )) by {
        let at = 9 * (k / 8) + k % 8;
        assert(0 <= at < 71);
        assert(other[at] == grid[at] + by);
        assert(other[at + 1] == grid[at + 1] + by);
        assert(bit_from_top(b, k) <==> brighter_than_next(other, k));
    }
    law_hash_is_determined(a, b, grid);
}

} // verus!
