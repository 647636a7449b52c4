//! Depth ranks of the three sections of the camera rig, pixel by pixel.

use crate::depth::{depth_key, is_ranking, key_of, rank};
use crate::util::{cell, lemma_cell_bound, lemma_cell_of_place};
use vstd::prelude::*;

verus! {

/// The depth from which on a sample holds no depth of the product: the
/// bits of `1.0`.
pub const UNIT_DEPTH: u32 = 0x3f80_0000;

/// The smaller of two depths, the first where they are equal.
pub open spec fn smaller(a: u32, b: u32) -> u32 {
    if depth_key(b) < depth_key(a) {
        b
    } else {
        a
    }
}

/// The greater of two depths, the second where they are equal.
pub open spec fn greater(a: u32, b: u32) -> u32 {
    if depth_key(a) > depth_key(b) {
        a
    } else {
        b
    }
}

/// The depth itself where it is below [`UNIT_DEPTH`], and zero where it is
/// not.
pub open spec fn filtered(depth: u32) -> u32 {
    if depth_key(depth) < depth_key(UNIT_DEPTH) {
        depth
    } else {
        0
    }
}

/// The sample in column `x` of row `y`, or `fallback` outside the image.
pub open spec fn sample_or(map: Seq<u32>, size: int, x: int, y: int, fallback: u32) -> u32 {
    if 0 <= x < size && 0 <= y < size {
        map[cell(size, x, y)]
    } else {
        fallback
    }
}

/// The smallest depth among a pixel and the pixels around it that lie
/// inside the image.
pub open spec fn eroded(map: Seq<u32>, size: int, x: int, y: int) -> u32 {
    let c = map[cell(size, x, y)];
    let a = smaller(c, sample_or(map, size, x - 1, y - 1, c));
    let a = smaller(a, sample_or(map, size, x, y - 1, c));
    let a = smaller(a, sample_or(map, size, x + 1, y - 1, c));
    let a = smaller(a, sample_or(map, size, x - 1, y, c));
    let a = smaller(a, sample_or(map, size, x + 1, y, c));
    let a = smaller(a, sample_or(map, size, x - 1, y + 1, c));
    let a = smaller(a, sample_or(map, size, x, y + 1, c));
    smaller(a, sample_or(map, size, x + 1, y + 1, c))
}

/// The depth by which a section is ranked at a pixel: the greater of the
/// pixel's own depth, taken as zero from [`UNIT_DEPTH`] on, and the smallest
/// depth around the pixel.
pub open spec fn adjusted(map: Seq<u32>, size: int, x: int, y: int) -> u32 {
    greater(filtered(map[cell(size, x, y)]), eroded(map, size, x, y))
}

/// The depths by which the front, the rear and the upper section are
/// ranked at pixel `p`, counted row after row.
pub open spec fn adjusted_at(
    front: Seq<u32>,
    rear: Seq<u32>,
    upper: Seq<u32>,
    size: int,
    p: int,
) -> Seq<u32> {
    seq![
        adjusted(front, size, p % size, p / size),
        adjusted(rear, size, p % size, p / size),
        adjusted(upper, size, p % size, p / size),
    ]
}

/// The three ranks that a rank image holds for pixel `p`.
pub open spec fn ranks_at(image: Seq<u8>, p: int) -> Seq<usize> {
    seq![image[3 * p] as usize, image[3 * p + 1] as usize, image[3 * p + 2] as usize]
}

/// The sample in column `x + dx - 1` of row `y + dy - 1`, or `fallback`
/// outside the image.
fn neighbour(map: &Vec<u32>, size: usize, x: usize, y: usize, dx: usize, dy: usize, fallback: u32) -> (
    sample: u32)
    requires
        map.len() == size * size,
        x < size,
        y < size,
        dx <= 2,
        dy <= 2,
    ensures
        sample == sample_or(map@, size as int, x + dx - 1, y + dy - 1, fallback),
{
    proof {
        assert(size + 2 <= usize::MAX) by (nonlinear_arith)
            requires
                size * size <= usize::MAX,
                usize::MAX >= 0xffff_ffff,
        ;
    }
    if x + dx < 1 || x + dx - 1 >= size || y + dy < 1 || y + dy - 1 >= size {
        fallback
    } else {
        let nx = x + dx - 1;
        let ny = y + dy - 1;
        proof {
            lemma_cell_bound(size as int, nx as int, ny as int);
            assert(0 <= ny * size <= ny * size + nx) by (nonlinear_arith)
                requires
                    0 <= ny,
                    0 <= size,
                    0 <= nx,
            ;
        }
        map[ny * size + nx]
    }
}

/// The smaller of two depths.
fn smaller_of(a: u32, b: u32) -> (depth: u32)
    ensures
        depth == smaller(a, b),
{
    if key_of(b) < key_of(a) {
        b
    } else {
        a
    }
}

/// The depth by which a section is ranked at the pixel in column `x` of
/// row `y`.
fn adjusted_depth(map: &Vec<u32>, size: usize, x: usize, y: usize) -> (depth: u32)
    requires
        map.len() == size * size,
        x < size,
        y < size,
    ensures
        depth == adjusted(map@, size as int, x as int, y as int),
{
    proof {
        lemma_cell_bound(size as int, x as int, y as int);
        assert(0 <= y * size <= y * size + x) by (nonlinear_arith)
            requires
                0 <= y,
                0 <= size,
                0 <= x,
        ;
    }
    let c = map[y * size + x];
    let a = smaller_of(c, neighbour(map, size, x, y, 0, 0, c));
    let a = smaller_of(a, neighbour(map, size, x, y, 1, 0, c));
    let a = smaller_of(a, neighbour(map, size, x, y, 2, 0, c));
    let a = smaller_of(a, neighbour(map, size, x, y, 0, 1, c));
    let a = smaller_of(a, neighbour(map, size, x, y, 2, 1, c));
    let a = smaller_of(a, neighbour(map, size, x, y, 0, 2, c));
    let a = smaller_of(a, neighbour(map, size, x, y, 1, 2, c));
    let a = smaller_of(a, neighbour(map, size, x, y, 2, 2, c));
    let own = if key_of(c) < key_of(UNIT_DEPTH) {
        c
    } else {
        0
    };
    if key_of(own) > key_of(a) {
        own
    } else {
        a
    }
}

/// Ranks the front, the rear and the upper section by depth at every pixel
/// of an image of `size` by `size` pixels.
///
/// The rank image has three bytes for each pixel: the section of greatest
/// depth first, where 0 stands for the front, 1 for the rear and 2 for the
/// upper section, and sections of equal depth in that order. The depth of
/// a section at a pixel is taken as [`adjusted`] says.
pub fn compute_z_rank(size: usize, z_front: &Vec<u32>, z_rear: &Vec<u32>, z_upper: &Vec<u32>) -> (
    z_rank: Vec<u8>)
    requires
        3 * (size * size) <= usize::MAX,
        z_front.len() == size * size,
        z_rear.len() == size * size,
        z_upper.len() == size * size,
    ensures
        z_rank.len() == 3 * (size * size),
        forall|p: int|
            0 <= p < size * size ==> is_ranking(
                adjusted_at(z_front@, z_rear@, z_upper@, size as int, p),
                #[trigger] ranks_at(z_rank@, p),
            ),
{
    proof {
        assert(size * size <= usize::MAX) by (nonlinear_arith)
            requires
                3 * (size * size) <= usize::MAX,
        ;
    }
    let n = size * size;
    let mut z_rank: Vec<u8> = Vec::new();
    let mut p: usize = 0;
    while p < n
        invariant
            p <= n,
            n == size * size,
            3 * n <= usize::MAX,
            z_front.len() == n,
            z_rear.len() == n,
            z_upper.len() == n,
            z_rank.len() == 3 * p,
            forall|q: int|
                0 <= q < p ==> is_ranking(
                    adjusted_at(z_front@, z_rear@, z_upper@, size as int, q),
                    #[trigger] ranks_at(z_rank@, q),
                ),
        decreases n - p,
    {
        proof {
            lemma_cell_of_place(size as int, p as int);
        }
        let x = p % size;
        let y = p / size;
        let mut depths: Vec<u32> = Vec::new();
        depths.push(adjusted_depth(z_front, size, x, y));
        depths.push(adjusted_depth(z_rear, size, x, y));
        depths.push(adjusted_depth(z_upper, size, x, y));
        proof {
            assert(depths@ =~= adjusted_at(z_front@, z_rear@, z_upper@, size as int, p as int));
        }
        let ranking = rank(&depths);
        let ghost before = z_rank@;
        z_rank.push(ranking[0] as u8);
        z_rank.push(ranking[1] as u8);
        z_rank.push(ranking[2] as u8);
        proof {
            assert(ranks_at(z_rank@, p as int) =~= ranking@);
            assert forall|q: int| 0 <= q < p implies is_ranking(
                adjusted_at(z_front@, z_rear@, z_upper@, size as int, q),
                #[trigger] ranks_at(z_rank@, q),
            ) by {
                assert(ranks_at(z_rank@, q) =~= ranks_at(before, q));
            }
        }
        p += 1;
    }
    z_rank
}

} // verus!
