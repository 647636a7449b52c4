//! Channels of a render pass and the planar sample buffers they fill.
//!
//! A sample is held as the bit pattern of the 32-bit float that the render
//! stores, so that buffers can be moved and compared exactly.

use vstd::prelude::*;

verus! {

/// One channel of a render pass. A buffer holds its channels one after the
/// other, each as a plane of one sample per pixel, in the order R, G, B, A.
#[derive(Clone, Copy, Debug, PartialEq, Eq, Hash, Structural)]
pub enum RGBAChannel {
    R,
    G,
    B,
    A,
}

impl RGBAChannel {
    /// The position of the channel's plane in a buffer.
    pub open spec fn index_spec(self) -> nat {
        match self {
            RGBAChannel::R => 0,
            RGBAChannel::G => 1,
            RGBAChannel::B => 2,
            RGBAChannel::A => 3,
        }
    }

    /// The position of the channel's plane in a buffer.
    pub fn index(&self) -> (index: usize)
        ensures
            index == self.index_spec(),
    {
        match self {
            RGBAChannel::R => 0,
            RGBAChannel::G => 1,
            RGBAChannel::B => 2,
            RGBAChannel::A => 3,
        }
    }
}

/// The buffer with the samples from `offset` on replaced by `data`.
pub open spec fn spliced(buffer: Seq<u32>, offset: int, data: Seq<u32>) -> Seq<u32> {
    buffer.subrange(0, offset) + data + buffer.subrange(offset + data.len(), buffer.len() as int)
}

/// Overwrites the samples of `buffer` from `offset` on with `data`, keeping
/// the buffer's length.
pub fn splice(buffer: &mut Vec<u32>, offset: usize, data: &Vec<u32>)
    requires
        offset + data.len() <= old(buffer).len(),
    ensures
        final(buffer)@ == spliced(old(buffer)@, offset as int, data@),
        final(buffer).len() == old(buffer).len(),
{
    let mut i: usize = 0;
    while i < data.len()
        invariant
            i <= data.len(),
            offset + data.len() <= buffer.len(),
            buffer.len() == old(buffer).len(),
            forall|j: int| 0 <= j < offset ==> buffer@[j] == old(buffer)@[j],
            forall|j: int| 0 <= j < i ==> buffer@[offset + j] == data@[j],
            forall|j: int| offset + i <= j < buffer.len() ==> buffer@[j] == old(buffer)@[j],
        decreases data.len() - i,
    {
        buffer.set(offset + i, data[i]);
        i += 1;
    }
    proof {
        assert(buffer@ =~= spliced(old(buffer)@, offset as int, data@));
    }
}

/// Plane `c` of a buffer of planes of `n` samples each.
pub open spec fn plane_of(buffer: Seq<u32>, n: nat, c: nat) -> Seq<u32> {
    buffer.subrange((c * n) as int, (c * n + n) as int)
}

/// Overwriting one plane of a buffer sets that plane and keeps the others.
pub proof fn lemma_spliced_plane(buffer: Seq<u32>, n: nat, planes: nat, c: nat, data: Seq<u32>)
    requires
        buffer.len() == planes * n,
        c < planes,
        data.len() == n,
    ensures
        c * n + n <= buffer.len(),
        spliced(buffer, (c * n) as int, data).len() == buffer.len(),
        plane_of(spliced(buffer, (c * n) as int, data), n, c) == data,
        forall|other: nat|
            other < planes && other != c ==> #[trigger] plane_of(
                spliced(buffer, (c * n) as int, data),
                n,
                other,
            ) == plane_of(buffer, n, other),
{
    let after = spliced(buffer, (c * n) as int, data);
    assert(c * n + n <= planes * n) by (nonlinear_arith)
        requires
            c < planes,
    ;
    assert(plane_of(after, n, c) =~= data);
    assert forall|other: nat| other < planes && other != c implies #[trigger] plane_of(
        after,
        n,
        other,
    ) == plane_of(buffer, n, other) by {
        assert(other * n + n <= planes * n) by (nonlinear_arith)
            requires
                other < planes,
        ;
        if other < c {
            assert(other * n + n <= c * n) by (nonlinear_arith)
                requires
                    other < c,
            ;
        } else {
            assert(c * n + n <= other * n) by (nonlinear_arith)
                requires
                    c < other,
            ;
        }
        assert(plane_of(after, n, other) =~= plane_of(buffer, n, other));
    }
}

/// A buffer of `len` samples that are all zero.
pub fn zeros(len: usize) -> (buffer: Vec<u32>)
    ensures
        buffer@ == Seq::new(len as nat, |i: int| 0u32),
{
    let mut buffer: Vec<u32> = Vec::new();
    let mut i: usize = 0;
    while i < len
        invariant
            i <= len,
            buffer@ == Seq::new(i as nat, |i: int| 0u32),
        decreases len - i,
    {
        buffer.push(0);
        proof {
            assert(buffer@ =~= Seq::new((i + 1) as nat, |i: int| 0u32));
        }
        i += 1;
    }
    buffer
}

/// The place of the pixel in column `x` of row `y` in a map.
pub open spec fn cell(size: int, x: int, y: int) -> int {
    y * size + x
}

/// Every pixel of a square image has its place inside the map.
pub proof fn lemma_cell_bound(size: int, x: int, y: int)
    requires
        0 <= x < size,
        0 <= y < size,
    ensures
        0 <= cell(size, x, y) < size * size,
{
    assert(0 <= y * size + x < size * size) by (nonlinear_arith)
        requires
            0 <= x < size,
            0 <= y < size,
    ;
}

/// The places follow the rows, and within a row the columns.
pub proof fn lemma_cell_order(size: int, x1: int, y1: int, x2: int, y2: int)
    requires
        0 <= x1 < size,
        0 <= x2,
        0 <= y1,
        y1 < y2 || (y1 == y2 && x1 < x2),
    ensures
        cell(size, x1, y1) < cell(size, x2, y2),
{
    assert(y1 * size + x1 < y2 * size + x2) by (nonlinear_arith)
        requires
            0 <= x1 < size,
            0 <= x2,
            0 <= y1,
            y1 < y2 || (y1 == y2 && x1 < x2),
    ;
}

/// A place in the map belongs to the pixel whose column is the remainder
/// and whose row is the quotient of the place by the image's width.
pub proof fn lemma_cell_of_place(size: int, p: int)
    requires
        0 <= size,
        0 <= p < size * size,
    ensures
        0 <= p % size < size,
        0 <= p / size < size,
        cell(size, p % size, p / size) == p,
{
    assert(size > 0) by (nonlinear_arith)
        requires
            0 <= size,
            0 <= p < size * size,
    ;
    vstd::arithmetic::div_mod::lemma_fundamental_div_mod(p, size);
    vstd::arithmetic::div_mod::lemma_mod_bound(p, size);
    let q = p / size;
    let r = p % size;
    assert(0 <= q < size) by (nonlinear_arith)
        requires
            p == size * q + r,
            0 <= r < size,
            0 <= p < size * size,
    ;
    assert(size * q == q * size) by (nonlinear_arith);
}

} // verus!
