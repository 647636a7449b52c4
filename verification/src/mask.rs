//! The depth, identity and coverage passes of one rendered asset.

use crate::util::{lemma_spliced_plane, plane_of, splice, spliced, zeros, RGBAChannel};
use vstd::prelude::*;

verus! {

/// A mask pass of a render.
#[derive(Clone, Copy, Debug, PartialEq, Eq, Hash, Structural)]
pub enum RenderPass {
    DEPTH,
    INDEX,
    MATTE,
}

impl RenderPass {
    /// The number of planes that the pass holds: one for the depth, four
    /// for the identity hashes and four for the coverage weights.
    pub open spec fn planes(self) -> nat {
        match self {
            RenderPass::DEPTH => 1,
            RenderPass::INDEX => 4,
            RenderPass::MATTE => 4,
        }
    }
}

/// The masks of one asset at one resolution. The depth is one plane. The
/// identity hashes and the coverage weights are four planes each: plane
/// `r` holds, for every pixel, the material of rank `r` by coverage and the
/// fraction of the pixel that it covers.
#[derive(Debug)]
pub struct EXRData {
    resolution: usize,
    depth: Vec<u32>,
    index: Vec<u32>,
    matte: Vec<u32>,
}

impl EXRData {
    /// The side of the square image, in pixels.
    pub closed spec fn resolution_spec(&self) -> nat {
        self.resolution as nat
    }

    /// The number of pixels of the image.
    pub open spec fn pixels(&self) -> nat {
        self.resolution_spec() * self.resolution_spec()
    }

    /// The samples of a pass, plane after plane.
    pub closed spec fn pass_spec(&self, pass: RenderPass) -> Seq<u32> {
        match pass {
            RenderPass::DEPTH => self.depth@,
            RenderPass::INDEX => self.index@,
            RenderPass::MATTE => self.matte@,
        }
    }

    /// Every pass holds its planes of one sample per pixel.
    pub open spec fn wf(&self) -> bool {
        &&& 4 * self.pixels() <= usize::MAX
        &&& forall|pass: RenderPass| #[trigger]
            self.pass_spec(pass).len() == pass.planes() * self.pixels()
    }

    /// The depth at `pixel`.
    pub open spec fn depth_at(&self, pixel: int) -> u32 {
        self.pass_spec(RenderPass::DEPTH)[pixel]
    }

    /// The identity hash of rank `rank` at `pixel`.
    pub open spec fn hash_at(&self, rank: int, pixel: int) -> u32 {
        self.pass_spec(RenderPass::INDEX)[rank * self.pixels() + pixel]
    }

    /// The coverage weight of rank `rank` at `pixel`.
    pub open spec fn weight_at(&self, rank: int, pixel: int) -> u32 {
        self.pass_spec(RenderPass::MATTE)[rank * self.pixels() + pixel]
    }

    /// The plane of `channel` in `pass`: one sample per pixel.
    pub open spec fn plane_spec(&self, pass: RenderPass, channel: RGBAChannel) -> Seq<u32> {
        plane_of(self.pass_spec(pass), self.pixels(), channel.index_spec())
    }

    /// The pass has a plane for the channel.
    pub open spec fn has_plane(pass: RenderPass, channel: RGBAChannel) -> bool {
        channel.index_spec() < pass.planes()
    }

    /// An image of `resolution` by `resolution` pixels whose samples are all
    /// zero.
    pub fn new(resolution: usize) -> (data: Self)
        requires
            4 * (resolution * resolution) <= usize::MAX,
        ensures
            data.wf(),
            data.resolution_spec() == resolution,
            forall|pass: RenderPass| #[trigger]
                data.pass_spec(pass) == Seq::new(pass.planes() * data.pixels(), |i: int| 0u32),
    {
        proof {
            assert(resolution * resolution <= usize::MAX) by (nonlinear_arith)
                requires
                    4 * (resolution * resolution) <= usize::MAX,
            ;
        }
        let n = resolution * resolution;
        EXRData { resolution, depth: zeros(n), index: zeros(n * 4), matte: zeros(n * 4) }
    }

    /// The side of the square image, in pixels.
    pub fn resolution(&self) -> (resolution: usize)
        ensures
            resolution == self.resolution_spec(),
    {
        self.resolution
    }

    /// The samples of `pass`, plane after plane.
    pub fn pass(&self, pass: RenderPass) -> (samples: &Vec<u32>)
        ensures
            samples@ == self.pass_spec(pass),
    {
        match pass {
            RenderPass::DEPTH => &self.depth,
            RenderPass::INDEX => &self.index,
            RenderPass::MATTE => &self.matte,
        }
    }

    /// The depth at `pixel`.
    pub fn depth(&self, pixel: usize) -> (depth: u32)
        requires
            self.wf(),
            pixel < self.pixels(),
        ensures
            depth == self.depth_at(pixel as int),
    {
        proof {
            assert(self.pass_spec(RenderPass::DEPTH).len() == 1 * self.pixels());
        }
        self.depth[pixel]
    }

    /// The identity hash of rank `rank` at `pixel`.
    pub fn hash(&self, rank: usize, pixel: usize) -> (hash: u32)
        requires
            self.wf(),
            rank < 4,
            pixel < self.pixels(),
        ensures
            hash == self.hash_at(rank as int, pixel as int),
    {
        proof {
            assert(self.pass_spec(RenderPass::INDEX).len() == 4 * self.pixels());
            let n = self.pixels();
            assert(rank * n + pixel < 4 * n) by (nonlinear_arith)
                requires
                    rank < 4,
                    pixel < n,
            ;
            assert(self.resolution * self.resolution == n);
        }
        let n = self.resolution * self.resolution;
        self.index[rank * n + pixel]
    }

    /// The coverage weight of rank `rank` at `pixel`.
    pub fn weight(&self, rank: usize, pixel: usize) -> (weight: u32)
        requires
            self.wf(),
            rank < 4,
            pixel < self.pixels(),
        ensures
            weight == self.weight_at(rank as int, pixel as int),
    {
        proof {
            assert(self.pass_spec(RenderPass::MATTE).len() == 4 * self.pixels());
            let n = self.pixels();
            assert(rank * n + pixel < 4 * n) by (nonlinear_arith)
                requires
                    rank < 4,
                    pixel < n,
            ;
            assert(self.resolution * self.resolution == n);
        }
        let n = self.resolution * self.resolution;
        self.matte[rank * n + pixel]
    }

    /// Stores `channel_data` as the plane of `channel` in `pass`. The other
    /// planes and passes keep their samples. The depth has the one plane R.
    pub fn set_channel(&mut self, channel_data: Vec<u32>, pass: RenderPass, channel: RGBAChannel)
        requires
            old(self).wf(),
            channel_data.len() == old(self).pixels(),
            Self::has_plane(pass, channel),
        ensures
            final(self).wf(),
            final(self).resolution_spec() == old(self).resolution_spec(),
            final(self).pass_spec(pass) == spliced(
                old(self).pass_spec(pass),
                (channel.index_spec() * old(self).pixels()) as int,
                channel_data@,
            ),
            final(self).plane_spec(pass, channel) == channel_data@,
            forall|p: RenderPass, c: RGBAChannel|
                (p != pass || c != channel) && Self::has_plane(p, c) ==> #[trigger] final(self)
                    .plane_spec(p, c) == old(self).plane_spec(p, c),
    {
        self.store(&channel_data, pass, channel);
    }

    fn store(&mut self, data: &Vec<u32>, pass: RenderPass, channel: RGBAChannel)
        requires
            old(self).wf(),
            data.len() == old(self).pixels(),
            Self::has_plane(pass, channel),
        ensures
            final(self).wf(),
            final(self).resolution_spec() == old(self).resolution_spec(),
            final(self).pass_spec(pass) == spliced(
                old(self).pass_spec(pass),
                (channel.index_spec() * old(self).pixels()) as int,
                data@,
            ),
            final(self).plane_spec(pass, channel) == data@,
            forall|p: RenderPass, c: RGBAChannel|
                (p != pass || c != channel) && Self::has_plane(p, c) ==> #[trigger] final(self)
                    .plane_spec(p, c) == old(self).plane_spec(p, c),
    {
        proof {
            assert(old(self).pass_spec(RenderPass::DEPTH).len() == 1 * old(self).pixels());
            assert(old(self).pass_spec(RenderPass::INDEX).len() == 4 * old(self).pixels());
            assert(old(self).pass_spec(RenderPass::MATTE).len() == 4 * old(self).pixels());
            lemma_spliced_plane(
                old(self).pass_spec(pass),
                old(self).pixels(),
                pass.planes(),
                channel.index_spec(),
                data@,
            );
        }
        let n = data.len();
        let offset = channel.index() * n;
        match pass {
            RenderPass::DEPTH => splice(&mut self.depth, offset, data),
            RenderPass::INDEX => splice(&mut self.index, offset, data),
            RenderPass::MATTE => splice(&mut self.matte, offset, data),
        }
        proof {
            assert forall|p: RenderPass| #[trigger]
                self.pass_spec(p).len() == p.planes() * self.pixels() by {
                assert(old(self).pass_spec(p).len() == p.planes() * old(self).pixels());
            }
        }
    }

    /// The position, among the channels of a render as they are stored in
    /// its file, of the channel that fills the plane of `channel` in `pass`.
    pub open spec fn source_spec(pass: RenderPass, channel: RGBAChannel) -> Option<int> {
        match (pass, channel) {
            (RenderPass::MATTE, RGBAChannel::G) => Some(4),
            (RenderPass::INDEX, RGBAChannel::G) => Some(5),
            (RenderPass::MATTE, RGBAChannel::R) => Some(6),
            (RenderPass::INDEX, RGBAChannel::R) => Some(7),
            (RenderPass::MATTE, RGBAChannel::A) => Some(8),
            (RenderPass::INDEX, RGBAChannel::A) => Some(9),
            (RenderPass::MATTE, RGBAChannel::B) => Some(10),
            (RenderPass::INDEX, RGBAChannel::B) => Some(11),
            (RenderPass::DEPTH, RGBAChannel::R) => Some(12),
            _ => None,
        }
    }

    /// Builds the image from the channels of a render, given in the order
    /// in which the file stores them. Each plane takes the samples of its
    /// source channel; a plane whose source the render lacks stays zero.
    pub fn from_channels(resolution: usize, channels: &Vec<Vec<u32>>) -> (data: Self)
        requires
            4 * (resolution * resolution) <= usize::MAX,
            channels.len() > 4 ==> channels[4].len() == resolution * resolution,
            channels.len() > 5 ==> channels[5].len() == resolution * resolution,
            channels.len() > 6 ==> channels[6].len() == resolution * resolution,
            channels.len() > 7 ==> channels[7].len() == resolution * resolution,
            channels.len() > 8 ==> channels[8].len() == resolution * resolution,
            channels.len() > 9 ==> channels[9].len() == resolution * resolution,
            channels.len() > 10 ==> channels[10].len() == resolution * resolution,
            channels.len() > 11 ==> channels[11].len() == resolution * resolution,
            channels.len() > 12 ==> channels[12].len() == resolution * resolution,
        ensures
            data.wf(),
            data.resolution_spec() == resolution,
            forall|pass: RenderPass, channel: RGBAChannel|
                Self::has_plane(pass, channel) ==> #[trigger] data.plane_spec(pass, channel)
                    == (match Self::source_spec(pass, channel) {
                    Some(i) if i < channels.len() => channels[i]@,
                    _ => Seq::new(data.pixels(), |i: int| 0u32),
                }),
    {
        let mut data = Self::new(resolution);
        proof {
            let n = data.pixels();
            assert forall|pass: RenderPass, channel: RGBAChannel|
                Self::has_plane(pass, channel) implies #[trigger] data.plane_spec(pass, channel)
                == Seq::new(n, |i: int| 0u32) by {
                let c = channel.index_spec();
                assert(c * n + n <= pass.planes() * n) by (nonlinear_arith)
                    requires
                        c < pass.planes(),
                ;
                assert(data.plane_spec(pass, channel) =~= Seq::new(n, |i: int| 0u32));
            }
        }
        if channels.len() > 4 {
            data.store(&channels[4], RenderPass::MATTE, RGBAChannel::G);
        }
        if channels.len() > 5 {
            data.store(&channels[5], RenderPass::INDEX, RGBAChannel::G);
        }
        if channels.len() > 6 {
            data.store(&channels[6], RenderPass::MATTE, RGBAChannel::R);
        }
        if channels.len() > 7 {
            data.store(&channels[7], RenderPass::INDEX, RGBAChannel::R);
        }
        if channels.len() > 8 {
            data.store(&channels[8], RenderPass::MATTE, RGBAChannel::A);
        }
        if channels.len() > 9 {
            data.store(&channels[9], RenderPass::INDEX, RGBAChannel::A);
        }
        if channels.len() > 10 {
            data.store(&channels[10], RenderPass::MATTE, RGBAChannel::B);
        }
        if channels.len() > 11 {
            data.store(&channels[11], RenderPass::INDEX, RGBAChannel::B);
        }
        if channels.len() > 12 {
            data.store(&channels[12], RenderPass::DEPTH, RGBAChannel::R);
        }
        data
    }
}

} // verus!
