//! Ownership of pixels among the three sections that share one rotating
//! camera rig: the front, the rear and the upper section.
//!
//! The product turns in front of the camera in 24 views. In every view a
//! pixel is owned by the section that is seen there: of the sections that
//! cover the pixel, the one of the greatest depth, and of sections of equal
//! depth the front before the rear before the upper. A section whose depth
//! at the pixel is zero, or the sentinel that the render writes where it
//! shows nothing, does not cover it and never owns it by depth. Where
//! the front and the rear share a pixel that the rear would own, the rear
//! hands it over to the front: in the two side views by the pixel's column,
//! in all other views by its depth against that of a reference plane.
//! Pixels that no section covers, the seams, go to a section that owns a
//! neighbouring pixel.

use crate::depth::{
    covers, covers_pixel, depth_key, is_winner, key_of, lemma_winner_exists, lemma_winner_unique,
    winner_spec,
};
use crate::util::{cell, lemma_cell_bound, lemma_cell_of_place, lemma_cell_order};
use vstd::prelude::*;

verus! {

/// One of the three sections of the rig, in the order of their priority at
/// a seam.
#[derive(Clone, Copy, Debug, PartialEq, Eq, Hash, Structural)]
pub enum RigSection {
    Front,
    Rear,
    Upper,
}

/// The number of views of one turn of the product.
pub const VIEWS: usize = 24;

/// A section with depth `depth` is not kept from being seen by a section
/// with depth `other`: the other does not cover the pixel, or its depth is
/// smaller, or equal while it comes later in the order front, rear, upper.
pub open spec fn outranks(depth: u32, other: u32, other_is_later: bool, sentinel: u32) -> bool {
    !covers(other, sentinel) || depth_key(depth) > depth_key(other) || (other_is_later && depth_key(depth)
        == depth_key(other))
}

/// The place, among front, rear and upper, of the section that is seen at a
/// pixel by its depths: of the sections that cover the pixel the one of
/// the greatest depth, the earlier of sections of equal depth, and none
/// where no section covers the pixel.
pub open spec fn seen_spec(front: u32, rear: u32, upper: u32, sentinel: u32) -> Option<int> {
    if covers(front, sentinel) && outranks(front, rear, true, sentinel) && outranks(front, upper, true, sentinel) {
        Some(0)
    } else if covers(rear, sentinel) && outranks(rear, front, false, sentinel) && outranks(rear, upper, true, sentinel) {
        Some(1)
    } else if covers(upper, sentinel) && outranks(upper, front, false, sentinel) && outranks(upper, rear, false, sentinel) {
        Some(2)
    } else {
        None
    }
}

/// The section that is seen at a pixel is the winner of the pixel among
/// the three sections, with the sections that cover it as the eligible
/// candidates.
pub proof fn lemma_seen_is_winner(front: u32, rear: u32, upper: u32, sentinel: u32)
    ensures
        seen_spec(front, rear, upper, sentinel) == winner_spec(
            seq![front, rear, upper],
            seq![covers(front, sentinel), covers(rear, sentinel), covers(upper, sentinel)],
        ),
{
    let depths = seq![front, rear, upper];
    let eligible = seq![covers(front, sentinel), covers(rear, sentinel), covers(upper, sentinel)];
    lemma_winner_exists(depths, eligible);
    assert(depths[0] == front && depths[1] == rear && depths[2] == upper);
    assert(eligible[0] == covers(front, sentinel) && eligible[1] == covers(rear, sentinel) && eligible[2] == covers(upper, sentinel));
    match seen_spec(front, rear, upper, sentinel) {
        Some(place) => {
            assert(is_winner(depths, eligible, place));
            lemma_winner_unique(depths, eligible, place, winner_spec(depths, eligible).unwrap());
        },
        None => {
            if winner_spec(depths, eligible).is_some() {
                let w = winner_spec(depths, eligible).unwrap();
                assert(eligible[w]);
                assert(w == 0 || w == 1 || w == 2);
            }
        },
    }
}

/// The column that bounds the rear section in a side view: half of
/// `percent` fiftieths of the image's width, each division rounded down.
pub open spec fn side_column(size: int, percent: int) -> int {
    ((size * percent) / 50) / 2
}

/// Whether the rear section, where it is seen, hands the pixel in column
/// `x` over to a front section that covers the pixel too. In the right
/// side view (view 0) it does so right of the column at 49 fiftieths of the
/// middle, in the left side view (view 12) up to the column at 51
/// fiftieths. Facing away (views 1 to 11) it does so where its depth is not
/// smaller than the reference plane's, and facing the camera (views 13 to
/// 23) where it is smaller.
pub open spec fn rear_yields(frame: int, size: int, x: int, rear: u32, plane: u32) -> bool {
    let view = frame % 24;
    if view == 0 {
        x > side_column(size, 49)
    } else if view < 12 {
        depth_key(rear) >= depth_key(plane)
    } else if view == 12 {
        x <= side_column(size, 51)
    } else {
        depth_key(rear) < depth_key(plane)
    }
}

/// The section that owns a pixel by its depths: the section that is seen
/// there, and the front in place of the rear where the rear yields and the
/// front covers the pixel too. No section owns a pixel that none covers.
pub open spec fn owner_spec(
    frame: int,
    size: int,
    x: int,
    front: u32,
    rear: u32,
    upper: u32,
    plane: u32,
    sentinel: u32,
) -> Option<RigSection> {
    match seen_spec(front, rear, upper, sentinel) {
        None => None,
        Some(place) => if place == 0 {
            Some(RigSection::Front)
        } else if place == 1 {
            if covers(front, sentinel) && rear_yields(frame, size, x, rear, plane) {
                Some(RigSection::Front)
            } else {
                Some(RigSection::Rear)
            }
        } else {
            Some(RigSection::Upper)
        },
    }
}

/// A section that owns a pixel by its depths covers the pixel. Where the
/// rear or the upper section owns it, no section that covers the pixel has
/// a greater depth, and no earlier one an equal depth.
pub proof fn lemma_owner_covers(
    frame: int,
    size: int,
    x: int,
    front: u32,
    rear: u32,
    upper: u32,
    plane: u32,
    sentinel: u32,
)
    ensures
        match owner_spec(frame, size, x, front, rear, upper, plane, sentinel) {
            Some(RigSection::Front) => covers(front, sentinel),
            Some(RigSection::Rear) => {
                &&& covers(rear, sentinel)
                &&& covers(front, sentinel) ==> depth_key(rear) > depth_key(front)
                &&& covers(upper, sentinel) ==> depth_key(rear) >= depth_key(upper)
            },
            Some(RigSection::Upper) => {
                &&& covers(upper, sentinel)
                &&& covers(front, sentinel) ==> depth_key(upper) > depth_key(front)
                &&& covers(rear, sentinel) ==> depth_key(upper) > depth_key(rear)
            },
            None => !covers(front, sentinel) && !covers(rear, sentinel) && !covers(upper, sentinel),
        },
        owner_spec(frame, size, x, front, rear, upper, plane, sentinel).is_none() <==> !covers(front, sentinel)
            && !covers(rear, sentinel) && !covers(upper, sentinel),
{
}

/// The depths of the three sections and of the reference plane, one sample
/// for each pixel of a square image, row after row.
pub struct DepthMaps {
    pub front: Seq<u32>,
    pub rear: Seq<u32>,
    pub upper: Seq<u32>,
    pub plane: Seq<u32>,
    pub size: int,
    /// The depth that the render writes where a section shows nothing.
    pub sentinel: u32,
}

impl DepthMaps {
    /// Each map has one sample for each pixel.
    pub open spec fn wf(self) -> bool {
        &&& 0 <= self.size
        &&& self.front.len() == self.size * self.size
        &&& self.rear.len() == self.size * self.size
        &&& self.upper.len() == self.size * self.size
        &&& self.plane.len() == self.size * self.size
    }

    /// The owner of the pixel in column `x` of row `y`; none outside the
    /// image.
    pub open spec fn owner_at(self, frame: int, x: int, y: int) -> Option<RigSection> {
        if 0 <= x < self.size && 0 <= y < self.size {
            let p = y * self.size + x;
            owner_spec(
                frame,
                self.size,
                x,
                self.front[p],
                self.rear[p],
                self.upper[p],
                self.plane[p],
                self.sentinel,
            )
        } else {
            None
        }
    }

    /// `section` owns one of the eight pixels around the pixel in column
    /// `x` of row `y`, or that pixel itself.
    pub open spec fn near(self, frame: int, x: int, y: int, section: RigSection) -> bool {
        ||| self.owner_at(frame, x - 1, y - 1) == Some(section)
        ||| self.owner_at(frame, x, y - 1) == Some(section)
        ||| self.owner_at(frame, x + 1, y - 1) == Some(section)
        ||| self.owner_at(frame, x - 1, y) == Some(section)
        ||| self.owner_at(frame, x, y) == Some(section)
        ||| self.owner_at(frame, x + 1, y) == Some(section)
        ||| self.owner_at(frame, x - 1, y + 1) == Some(section)
        ||| self.owner_at(frame, x, y + 1) == Some(section)
        ||| self.owner_at(frame, x + 1, y + 1) == Some(section)
    }

    /// The section that the mask gives the pixel to: its owner, and at a
    /// seam the first of front, rear and upper that owns a pixel next to
    /// it. A seam with no owned pixel around it goes to no section.
    pub open spec fn claim_at(self, frame: int, x: int, y: int) -> Option<RigSection> {
        match self.owner_at(frame, x, y) {
            Some(section) => Some(section),
            None => if self.near(frame, x, y, RigSection::Front) {
                Some(RigSection::Front)
            } else if self.near(frame, x, y, RigSection::Rear) {
                Some(RigSection::Rear)
            } else if self.near(frame, x, y, RigSection::Upper) {
                Some(RigSection::Upper)
            } else {
                None
            },
        }
    }

    /// The three mask bytes of pixel `p`, counted row after row: a 1 for
    /// the section that the pixel goes to, in the order front, rear,
    /// upper, and 0 for the others.
    pub open spec fn mask_at(self, frame: int, p: int) -> Seq<u8> {
        let claim = self.claim_at(frame, p % self.size, p / self.size);
        seq![
            if claim == Some(RigSection::Front) {
                1u8
            } else {
                0u8
            },
            if claim == Some(RigSection::Rear) {
                1u8
            } else {
                0u8
            },
            if claim == Some(RigSection::Upper) {
                1u8
            } else {
                0u8
            },
        ]
    }

    /// The mask bytes of the first `count` pixels.
    pub open spec fn mask_raster(self, frame: int, count: nat) -> Seq<u8>
        decreases count,
    {
        if count == 0 {
            Seq::empty()
        } else {
            self.mask_raster(frame, (count - 1) as nat) + self.mask_at(frame, count - 1)
        }
    }
}

/// The mask holds the three bytes of each pixel at the pixel's place.
pub proof fn lemma_mask_raster(maps: DepthMaps, frame: int, count: nat, p: int)
    requires
        0 <= p < count,
    ensures
        maps.mask_raster(frame, count).len() == 3 * count,
        maps.mask_raster(frame, count).subrange(3 * p, 3 * p + 3) == maps.mask_at(frame, p),
    decreases count,
{
    lemma_mask_raster_len(maps, frame, count);
    lemma_mask_raster_len(maps, frame, (count - 1) as nat);
    if p < count - 1 {
        lemma_mask_raster(maps, frame, (count - 1) as nat, p);
        assert(maps.mask_raster(frame, count).subrange(3 * p, 3 * p + 3) =~= maps.mask_raster(
            frame,
            (count - 1) as nat,
        ).subrange(3 * p, 3 * p + 3));
    } else {
        assert(maps.mask_raster(frame, count).subrange(3 * p, 3 * p + 3) =~= maps.mask_at(
            frame,
            p,
        ));
    }
}

proof fn lemma_mask_raster_len(maps: DepthMaps, frame: int, count: nat)
    ensures
        maps.mask_raster(frame, count).len() == 3 * count,
    decreases count,
{
    if count > 0 {
        lemma_mask_raster_len(maps, frame, (count - 1) as nat);
    }
}

/// A pixel that some section covers goes to a section that covers it; only
/// a pixel that no section covers can go to a section that does not.
pub proof fn lemma_claim_covers(maps: DepthMaps, frame: int, x: int, y: int)
    requires
        maps.wf(),
        0 <= x < maps.size,
        0 <= y < maps.size,
    ensures
        ({
            let p = y * maps.size + x;
            let uncovered = !covers(maps.front[p], maps.sentinel) && !covers(
                maps.rear[p],
                maps.sentinel,
            ) && !covers(maps.upper[p], maps.sentinel);
            match maps.claim_at(frame, x, y) {
                Some(RigSection::Front) => covers(maps.front[p], maps.sentinel) || uncovered,
                Some(RigSection::Rear) => covers(maps.rear[p], maps.sentinel) || uncovered,
                Some(RigSection::Upper) => covers(maps.upper[p], maps.sentinel) || uncovered,
                None => uncovered,
            }
        }),
{
    let p = y * maps.size + x;
    lemma_owner_covers(
        frame,
        maps.size,
        x,
        maps.front[p],
        maps.rear[p],
        maps.upper[p],
        maps.plane[p],
        maps.sentinel,
    );
}

/// A mask gives every pixel to at most one section.
pub proof fn lemma_mask_exclusive(maps: DepthMaps, frame: int, p: int)
    ensures
        maps.mask_at(frame, p)[0] + maps.mask_at(frame, p)[1] + maps.mask_at(frame, p)[2] <= 1,
{
}

/// The column that bounds the rear section in a side view.
fn side_column_of(size: usize, percent: usize) -> (column: usize)
    requires
        size * percent <= usize::MAX,
    ensures
        column == side_column(size as int, percent as int),
{
    ((size * percent) / 50) / 2
}

/// The section that owns a pixel by its depths.
fn owner_of(
    frame: usize,
    size: usize,
    x: usize,
    front: u32,
    rear: u32,
    upper: u32,
    plane: u32,
    sentinel: u32,
) -> (owner: Option<RigSection>)
    requires
        size * 51 <= usize::MAX,
    ensures
        owner == owner_spec(
            frame as int,
            size as int,
            x as int,
            front,
            rear,
            upper,
            plane,
            sentinel,
        ),
{
    let f = key_of(front);
    let r = key_of(rear);
    let u = key_of(upper);
    let front_covers = covers_pixel(front, sentinel);
    let rear_covers = covers_pixel(rear, sentinel);
    let upper_covers = covers_pixel(upper, sentinel);
    if front_covers && (!rear_covers || f >= r) && (!upper_covers || f >= u) {
        Some(RigSection::Front)
    } else if rear_covers && (!front_covers || r > f) && (!upper_covers || r >= u) {
        let view = frame % VIEWS;
        let yields = if view == 0 {
            proof {
                assert(size * 49 <= size * 51) by (nonlinear_arith);
            }
            x > side_column_of(size, 49)
        } else if view < 12 {
            r >= key_of(plane)
        } else if view == 12 {
            x <= side_column_of(size, 51)
        } else {
            r < key_of(plane)
        };
        if front_covers && yields {
            Some(RigSection::Front)
        } else {
            Some(RigSection::Rear)
        }
    } else if upper_covers && (!front_covers || u > f) && (!rear_covers || u > r) {
        Some(RigSection::Upper)
    } else {
        None
    }
}

/// The owners recorded for a map: one for each pixel, row after row.
spec fn records(owners: Seq<Option<RigSection>>, maps: DepthMaps, frame: int) -> bool {
    &&& owners.len() == maps.size * maps.size
    &&& forall|x: int, y: int|
        0 <= x < maps.size && 0 <= y < maps.size ==> owners[#[trigger] cell(maps.size, x, y)]
            == maps.owner_at(frame, x, y)
}

/// Whether `section` owns the pixel that lies `dx - 1` columns and `dy - 1`
/// rows from the pixel in column `x` of row `y`.
fn owns(
    owners: &Vec<Option<RigSection>>,
    size: usize,
    x: usize,
    y: usize,
    dx: usize,
    dy: usize,
    section: RigSection,
    Ghost(maps): Ghost<DepthMaps>,
    Ghost(frame): Ghost<int>,
) -> (owned: bool)
    requires
        maps.size == size,
        size * size <= usize::MAX,
        records(owners@, maps, frame),
        x < size,
        y < size,
        dx <= 2,
        dy <= 2,
    ensures
        owned == (maps.owner_at(frame, x + dx - 1, y + dy - 1) == Some(section)),
{
    proof {
        assert(size + 2 <= usize::MAX) by (nonlinear_arith)
            requires
                size * size <= usize::MAX,
                usize::MAX >= 0xffff_ffff,
        ;
    }
    if x + dx < 1 || x + dx - 1 >= size || y + dy < 1 || y + dy - 1 >= size {
        false
    } else {
        let nx = x + dx - 1;
        let ny = y + dy - 1;
        proof {
            lemma_cell_bound(size as int, nx as int, ny as int);
            assert(0 <= ny * size <= ny * size + nx) by (nonlinear_arith)
                requires
                    0 <= ny,
                    0 <= size,
                    0 <= nx,
            ;
            assert(cell(size as int, nx as int, ny as int) == ny * size + nx);
            assert(owners@[cell(size as int, nx as int, ny as int)] == maps.owner_at(
                frame,
                nx as int,
                ny as int,
            ));
        }
        match owners[ny * size + nx] {
            Some(owner) => owner == section,
            None => false,
        }
    }
}

/// Whether `section` owns a pixel around the pixel in column `x` of row
/// `y`, or that pixel.
fn owns_near(
    owners: &Vec<Option<RigSection>>,
    size: usize,
    x: usize,
    y: usize,
    section: RigSection,
    Ghost(maps): Ghost<DepthMaps>,
    Ghost(frame): Ghost<int>,
) -> (found: bool)
    requires
        maps.size == size,
        size * size <= usize::MAX,
        records(owners@, maps, frame),
        x < size,
        y < size,
    ensures
        found == maps.near(frame, x as int, y as int, section),
{
    owns(owners, size, x, y, 0, 0, section, Ghost(maps), Ghost(frame)) || owns(
        owners,
        size,
        x,
        y,
        1,
        0,
        section,
        Ghost(maps),
        Ghost(frame),
    ) || owns(owners, size, x, y, 2, 0, section, Ghost(maps), Ghost(frame)) || owns(
        owners,
        size,
        x,
        y,
        0,
        1,
        section,
        Ghost(maps),
        Ghost(frame),
    ) || owns(owners, size, x, y, 1, 1, section, Ghost(maps), Ghost(frame)) || owns(
        owners,
        size,
        x,
        y,
        2,
        1,
        section,
        Ghost(maps),
        Ghost(frame),
    ) || owns(owners, size, x, y, 0, 2, section, Ghost(maps), Ghost(frame)) || owns(
        owners,
        size,
        x,
        y,
        1,
        2,
        section,
        Ghost(maps),
        Ghost(frame),
    ) || owns(owners, size, x, y, 2, 2, section, Ghost(maps), Ghost(frame))
}

/// Computes the ownership mask of one frame of the turntable from the depth
/// maps of the front, the rear and the upper section and of the reference
/// plane, each of `size` by `size` samples.
///
/// The mask has three bytes for each pixel, for the front, the rear and the
/// upper section: a 1 where the pixel goes to the section, a 0 elsewhere.
/// A pixel goes to the section that owns it by its depths: the section of
/// the greatest depth among those that cover it, where a depth of zero or
/// equal to `sentinel` does not cover. A pixel that no section covers goes
/// to the first of front, rear and upper that owns a pixel around it.
pub fn depth_mask_with_sentinel(
    frame: usize,
    z_front: &Vec<u32>,
    z_rear: &Vec<u32>,
    z_upper: &Vec<u32>,
    z_plane: &Vec<u32>,
    size: usize,
    sentinel: u32,
) -> (mask: Vec<u8>)
    requires
        3 * (size * size) <= usize::MAX,
        z_front.len() == size * size,
        z_rear.len() == size * size,
        z_upper.len() == size * size,
        z_plane.len() == size * size,
    ensures
        mask@ == (DepthMaps {
            front: z_front@,
            rear: z_rear@,
            upper: z_upper@,
            plane: z_plane@,
            size: size as int,
            sentinel,
        }).mask_raster(frame as int, (size * size) as nat),
{
    let ghost maps = DepthMaps {
        front: z_front@,
        rear: z_rear@,
        upper: z_upper@,
        plane: z_plane@,
        size: size as int,
        sentinel,
    };
    let ghost view = frame as int;
    proof {
        assert(size * size <= usize::MAX && size * 51 <= usize::MAX) by (nonlinear_arith)
            requires
                3 * (size * size) <= usize::MAX,
                usize::MAX >= 0xffff_ffff,
        ;
    }
    let n = size * size;
    let mut owners: Vec<Option<RigSection>> = Vec::new();
    let mut y: usize = 0;
    while y < size
        invariant
            y <= size,
            n == size * size,
            size * 51 <= usize::MAX,
            maps.wf(),
            maps.size == size,
            maps.front == z_front@,
            maps.rear == z_rear@,
            maps.upper == z_upper@,
            maps.plane == z_plane@,
            maps.sentinel == sentinel,
            view == frame,
            owners.len() == cell(size as int, 0, y as int),
            forall|cx: int, cy: int|
                0 <= cx < size && 0 <= cy < y ==> owners@[#[trigger] cell(size as int, cx, cy)]
                    == maps.owner_at(view, cx, cy),
        decreases size - y,
    {
        let mut x: usize = 0;
        while x < size
            invariant
                x <= size,
                y < size,
                n == size * size,
                size * 51 <= usize::MAX,
                maps.wf(),
                maps.size == size,
                maps.front == z_front@,
                maps.rear == z_rear@,
                maps.upper == z_upper@,
                maps.plane == z_plane@,
                maps.sentinel == sentinel,
            maps.sentinel == sentinel,
                view == frame,
                owners.len() == cell(size as int, x as int, y as int),
                forall|cx: int, cy: int|
                    0 <= cx < size && (0 <= cy < y || (cy == y && cx < x)) ==> owners@[#[trigger] cell(
                        size as int,
                        cx,
                        cy,
                    )] == maps.owner_at(view, cx, cy),
            decreases size - x,
        {
            proof {
                lemma_cell_bound(size as int, x as int, y as int);
            }
            let p = owners.len();
            let owner = owner_of(
                frame,
                size,
                x,
                z_front[p],
                z_rear[p],
                z_upper[p],
                z_plane[p],
                sentinel,
            );
            let ghost before = owners@;
            owners.push(owner);
            proof {
                assert forall|cx: int, cy: int|
                    0 <= cx < size && (0 <= cy < y || (cy == y && cx < x + 1)) implies owners@[#[trigger] cell(
                    size as int,
                    cx,
                    cy,
                )] == maps.owner_at(view, cx, cy) by {
                    if cy == y && cx == x {
                    } else {
                        lemma_cell_order(size as int, cx, cy, x as int, y as int);
                        assert(owners@[cell(size as int, cx, cy)] == before[cell(
                            size as int,
                            cx,
                            cy,
                        )]);
                    }
                }
            }
            x += 1;
        }
        proof {
            assert(cell(size as int, size as int, y as int) == cell(size as int, 0, y + 1))
                by (nonlinear_arith);
        }
        y += 1;
    }
    proof {
        assert(cell(size as int, 0, size as int) == size * size);
        assert(records(owners@, maps, view));
    }
    let mut mask: Vec<u8> = Vec::new();
    let mut p: usize = 0;
    while p < n
        invariant
            p <= n,
            n == size * size,
            maps.size == size,
            records(owners@, maps, view),
            mask@ == maps.mask_raster(view, p as nat),
        decreases n - p,
    {
        proof {
            lemma_cell_of_place(size as int, p as int);
        }
        let x = p % size;
        let y = p / size;
        let claim = match owners[p] {
            Some(section) => Some(section),
            None => if owns_near(&owners, size, x, y, RigSection::Front, Ghost(maps), Ghost(view)) {
                Some(RigSection::Front)
            } else if owns_near(&owners, size, x, y, RigSection::Rear, Ghost(maps), Ghost(view)) {
                Some(RigSection::Rear)
            } else if owns_near(&owners, size, x, y, RigSection::Upper, Ghost(maps), Ghost(view)) {
                Some(RigSection::Upper)
            } else {
                None
            },
        };
        proof {
            assert(owners@[cell(size as int, x as int, y as int)] == maps.owner_at(
                view,
                x as int,
                y as int,
            ));
            assert(claim == maps.claim_at(view, x as int, y as int));
        }
        let bytes: (u8, u8, u8) = match claim {
            Some(RigSection::Front) => (1, 0, 0),
            Some(RigSection::Rear) => (0, 1, 0),
            Some(RigSection::Upper) => (0, 0, 1),
            None => (0, 0, 0),
        };
        mask.push(bytes.0);
        mask.push(bytes.1);
        mask.push(bytes.2);
        proof {
            assert(mask@ =~= maps.mask_raster(view, p as nat) + maps.mask_at(view, p as int));
        }
        p += 1;
    }
    mask
}

/// Computes the ownership mask of one frame of the turntable, as
/// [`depth_mask_with_sentinel`] does, for renders in which a depth of zero
/// alone stands for a pixel that a section does not cover.
pub fn depth_mask(
    frame: usize,
    z_front: &Vec<u32>,
    z_rear: &Vec<u32>,
    z_upper: &Vec<u32>,
    z_plane: &Vec<u32>,
    size: usize,
) -> (mask: Vec<u8>)
    requires
        3 * (size * size) <= usize::MAX,
        z_front.len() == size * size,
        z_rear.len() == size * size,
        z_upper.len() == size * size,
        z_plane.len() == size * size,
    ensures
        mask@ == (DepthMaps {
            front: z_front@,
            rear: z_rear@,
            upper: z_upper@,
            plane: z_plane@,
            size: size as int,
            sentinel: 0,
        }).mask_raster(frame as int, (size * size) as nat),
{
    depth_mask_with_sentinel(frame, z_front, z_rear, z_upper, z_plane, size, 0)
}

} // verus!
