//! The radiance passes of one rendered asset.

use crate::util::{lemma_spliced_plane, plane_of, splice, spliced, zeros, RGBAChannel};
use vstd::prelude::*;

verus! {

/// A radiance pass of a render.
#[derive(Clone, Copy, Debug, PartialEq, Eq, Hash, Structural)]
pub enum RenderPass {
    AO,
    DIFFUSE,
    GLOSSY,
}

/// The radiance of one asset at one resolution: ambient occlusion, diffuse
/// and glossy light, each with the three planes R, G and B.
#[derive(Debug)]
pub struct EXRData {
    resolution: usize,
    ao: Vec<u32>,
    diffuse: Vec<u32>,
    glossy: Vec<u32>,
}

impl EXRData {
    /// The side of the square image, in pixels.
    pub closed spec fn resolution_spec(&self) -> nat {
        self.resolution as nat
    }

    /// The number of pixels of the image.
    pub open spec fn pixels(&self) -> nat {
        self.resolution_spec() * self.resolution_spec()
    }

    /// The samples of a pass, plane after plane.
    pub closed spec fn pass_spec(&self, pass: RenderPass) -> Seq<u32> {
        match pass {
            RenderPass::AO => self.ao@,
            RenderPass::DIFFUSE => self.diffuse@,
            RenderPass::GLOSSY => self.glossy@,
        }
    }

    /// Every pass holds three planes of one sample per pixel.
    pub open spec fn wf(&self) -> bool {
        &&& 3 * self.pixels() <= usize::MAX
        &&& forall|pass: RenderPass| #[trigger] self.pass_spec(pass).len() == 3 * self.pixels()
    }

    /// The sample of `channel` of `pass` at `pixel`.
    pub open spec fn sample(&self, pass: RenderPass, channel: int, pixel: int) -> u32 {
        self.pass_spec(pass)[channel * self.pixels() + pixel]
    }

    /// The plane of `channel` in `pass`: one sample per pixel.
    pub open spec fn plane_spec(&self, pass: RenderPass, channel: RGBAChannel) -> Seq<u32> {
        plane_of(self.pass_spec(pass), self.pixels(), channel.index_spec())
    }

    /// The pass has a plane for the channel.
    pub open spec fn has_plane(pass: RenderPass, channel: RGBAChannel) -> bool {
        channel != RGBAChannel::A
    }

    /// An image of `resolution` by `resolution` pixels whose samples are all
    /// zero.
    pub fn new(resolution: usize) -> (data: Self)
        requires
            3 * (resolution * resolution) <= usize::MAX,
        ensures
            data.wf(),
            data.resolution_spec() == resolution,
            forall|pass: RenderPass| #[trigger]
                data.pass_spec(pass) == Seq::new(3 * data.pixels(), |i: int| 0u32),
    {
        proof {
            assert(resolution * resolution <= usize::MAX) by (nonlinear_arith)
                requires
                    3 * (resolution * resolution) <= usize::MAX,
            ;
        }
        let n = resolution * resolution;
        EXRData { resolution, ao: zeros(n * 3), diffuse: zeros(n * 3), glossy: zeros(n * 3) }
    }

    /// The side of the square image, in pixels.
    pub fn resolution(&self) -> (resolution: usize)
        ensures
            resolution == self.resolution_spec(),
    {
        self.resolution
    }

    /// The samples of `pass`, plane after plane.
    pub fn pass(&self, pass: RenderPass) -> (samples: &Vec<u32>)
        ensures
            samples@ == self.pass_spec(pass),
    {
        match pass {
            RenderPass::AO => &self.ao,
            RenderPass::DIFFUSE => &self.diffuse,
            RenderPass::GLOSSY => &self.glossy,
        }
    }

    /// The sample of plane `channel` of `pass` at `pixel`.
    pub fn sample_at(&self, pass: RenderPass, channel: usize, pixel: usize) -> (sample: u32)
        requires
            self.wf(),
            channel < 3,
            pixel < self.pixels(),
        ensures
            sample == self.sample(pass, channel as int, pixel as int),
    {
        proof {
            assert(self.pass_spec(pass).len() == 3 * self.pixels());
            let n = self.pixels();
            assert(channel * n + pixel < 3 * n) by (nonlinear_arith)
                requires
                    channel < 3,
                    pixel < n,
            ;
            assert(self.resolution * self.resolution == n);
        }
        let n = self.resolution * self.resolution;
        let samples = self.pass(pass);
        samples[channel * n + pixel]
    }

    /// Stores `channel_data` as the plane of `channel` in `pass`. The other
    /// planes and passes keep their samples.
    pub fn set_channel(&mut self, channel_data: Vec<u32>, pass: RenderPass, channel: RGBAChannel)
        requires
            old(self).wf(),
            channel_data.len() == old(self).pixels(),
            Self::has_plane(pass, channel),
        ensures
            final(self).wf(),
            final(self).resolution_spec() == old(self).resolution_spec(),
            final(self).pass_spec(pass) == spliced(
                old(self).pass_spec(pass),
                (channel.index_spec() * old(self).pixels()) as int,
                channel_data@,
            ),
            final(self).plane_spec(pass, channel) == channel_data@,
            forall|p: RenderPass, c: RGBAChannel|
                (p != pass || c != channel) && Self::has_plane(p, c) ==> #[trigger] final(self)
                    .plane_spec(p, c) == old(self).plane_spec(p, c),
    {
        self.store(&channel_data, pass, channel);
    }

    fn store(&mut self, data: &Vec<u32>, pass: RenderPass, channel: RGBAChannel)
        requires
            old(self).wf(),
            data.len() == old(self).pixels(),
            Self::has_plane(pass, channel),
        ensures
            final(self).wf(),
            final(self).resolution_spec() == old(self).resolution_spec(),
            final(self).pass_spec(pass) == spliced(
                old(self).pass_spec(pass),
                (channel.index_spec() * old(self).pixels()) as int,
                data@,
            ),
            final(self).plane_spec(pass, channel) == data@,
            forall|p: RenderPass, c: RGBAChannel|
                (p != pass || c != channel) && Self::has_plane(p, c) ==> #[trigger] final(self)
                    .plane_spec(p, c) == old(self).plane_spec(p, c),
    {
        proof {
            assert(old(self).pass_spec(RenderPass::AO).len() == 3 * old(self).pixels());
            assert(old(self).pass_spec(RenderPass::DIFFUSE).len() == 3 * old(self).pixels());
            assert(old(self).pass_spec(RenderPass::GLOSSY).len() == 3 * old(self).pixels());
            lemma_spliced_plane(
                old(self).pass_spec(pass),
                old(self).pixels(),
                3,
                channel.index_spec(),
                data@,
            );
        }
        let n = data.len();
        let offset = channel.index() * n;
        match pass {
            RenderPass::AO => splice(&mut self.ao, offset, data),
            RenderPass::DIFFUSE => splice(&mut self.diffuse, offset, data),
            RenderPass::GLOSSY => splice(&mut self.glossy, offset, data),
        }
        proof {
            assert forall|p: RenderPass| #[trigger]
                self.pass_spec(p).len() == 3 * self.pixels() by {
                assert(old(self).pass_spec(p).len() == 3 * old(self).pixels());
            }
        }
    }

    /// The position, among the channels of a render as they are stored in
    /// its file, of the channel that fills the plane of `channel` in `pass`.
    pub open spec fn source_spec(pass: RenderPass, channel: RGBAChannel) -> Option<int> {
        match (pass, channel) {
            (RenderPass::AO, RGBAChannel::B) => Some(0),
            (RenderPass::AO, RGBAChannel::G) => Some(1),
            (RenderPass::AO, RGBAChannel::R) => Some(2),
            (RenderPass::DIFFUSE, RGBAChannel::B) => Some(7),
            (RenderPass::DIFFUSE, RGBAChannel::G) => Some(8),
            (RenderPass::DIFFUSE, RGBAChannel::R) => Some(9),
            (RenderPass::GLOSSY, RGBAChannel::B) => Some(10),
            (RenderPass::GLOSSY, RGBAChannel::G) => Some(11),
            (RenderPass::GLOSSY, RGBAChannel::R) => Some(12),
            _ => None,
        }
    }

    /// Builds the image from the channels of a render, given in the order
    /// in which the file stores them. Each plane takes the samples of its
    /// source channel; a plane whose source the render lacks stays zero.
    pub fn from_channels(resolution: usize, channels: &Vec<Vec<u32>>) -> (data: Self)
        requires
            3 * (resolution * resolution) <= usize::MAX,
            channels.len() > 0 ==> channels[0].len() == resolution * resolution,
            channels.len() > 1 ==> channels[1].len() == resolution * resolution,
            channels.len() > 2 ==> channels[2].len() == resolution * resolution,
            channels.len() > 7 ==> channels[7].len() == resolution * resolution,
            channels.len() > 8 ==> channels[8].len() == resolution * resolution,
            channels.len() > 9 ==> channels[9].len() == resolution * resolution,
            channels.len() > 10 ==> channels[10].len() == resolution * resolution,
            channels.len() > 11 ==> channels[11].len() == resolution * resolution,
            channels.len() > 12 ==> channels[12].len() == resolution * resolution,
        ensures
            data.wf(),
            data.resolution_spec() == resolution,
            forall|pass: RenderPass, channel: RGBAChannel|
                Self::has_plane(pass, channel) ==> #[trigger] data.plane_spec(pass, channel)
                    == (match Self::source_spec(pass, channel) {
                    Some(i) if i < channels.len() => channels[i]@,
                    _ => Seq::new(data.pixels(), |i: int| 0u32),
                }),
    {
        let mut data = Self::new(resolution);
        proof {
            let n = data.pixels();
            assert forall|pass: RenderPass, channel: RGBAChannel|
                Self::has_plane(pass, channel) implies #[trigger] data.plane_spec(pass, channel)
                == Seq::new(n, |i: int| 0u32) by {
                let c = channel.index_spec();
                assert(c * n + n <= 3 * n) by (nonlinear_arith)
                    requires
                        c < 3,
                ;
                assert(data.plane_spec(pass, channel) =~= Seq::new(n, |i: int| 0u32));
            }
        }
        if channels.len() > 0 {
            data.store(&channels[0], RenderPass::AO, RGBAChannel::B);
        }
        if channels.len() > 1 {
            data.store(&channels[1], RenderPass::AO, RGBAChannel::G);
        }
        if channels.len() > 2 {
            data.store(&channels[2], RenderPass::AO, RGBAChannel::R);
        }
        if channels.len() > 7 {
            data.store(&channels[7], RenderPass::DIFFUSE, RGBAChannel::B);
        }
        if channels.len() > 8 {
            data.store(&channels[8], RenderPass::DIFFUSE, RGBAChannel::G);
        }
        if channels.len() > 9 {
            data.store(&channels[9], RenderPass::DIFFUSE, RGBAChannel::R);
        }
        if channels.len() > 10 {
            data.store(&channels[10], RenderPass::GLOSSY, RGBAChannel::B);
        }
        if channels.len() > 11 {
            data.store(&channels[11], RenderPass::GLOSSY, RGBAChannel::G);
        }
        if channels.len() > 12 {
            data.store(&channels[12], RenderPass::GLOSSY, RGBAChannel::R);
        }
        data
    }

    /// The position, among the channels of a metal render as they are
    /// stored in its file, of the channel that fills the plane of `channel`
    /// in the glossy pass.
    pub open spec fn glossy_source_spec(channel: RGBAChannel) -> Option<int> {
        match channel {
            RGBAChannel::B => Some(4),
            RGBAChannel::G => Some(5),
            RGBAChannel::R => Some(6),
            RGBAChannel::A => None,
        }
    }

    /// Builds the image from the channels of a metal render, which holds a
    /// glossy pass only. Each plane of the glossy pass takes the samples of
    /// its source channel, or stays zero where the render lacks it; the
    /// other passes are zero.
    pub fn from_glossy_channels(resolution: usize, channels: &Vec<Vec<u32>>) -> (data: Self)
        requires
            3 * (resolution * resolution) <= usize::MAX,
            channels.len() > 4 ==> channels[4].len() == resolution * resolution,
            channels.len() > 5 ==> channels[5].len() == resolution * resolution,
            channels.len() > 6 ==> channels[6].len() == resolution * resolution,
        ensures
            data.wf(),
            data.resolution_spec() == resolution,
            forall|pass: RenderPass, channel: RGBAChannel|
                Self::has_plane(pass, channel) ==> #[trigger] data.plane_spec(pass, channel)
                    == (match Self::glossy_source_spec(channel) {
                    Some(i) if pass == RenderPass::GLOSSY && i < channels.len() => channels[i]@,
                    _ => Seq::new(data.pixels(), |i: int| 0u32),
                }),
    {
        let mut data = Self::new(resolution);
        proof {
            let n = data.pixels();
            assert forall|pass: RenderPass, channel: RGBAChannel|
                Self::has_plane(pass, channel) implies #[trigger] data.plane_spec(pass, channel)
                == Seq::new(n, |i: int| 0u32) by {
                let c = channel.index_spec();
                assert(c * n + n <= 3 * n) by (nonlinear_arith)
                    requires
                        c < 3,
                ;
                assert(data.plane_spec(pass, channel) =~= Seq::new(n, |i: int| 0u32));
            }
        }
        if channels.len() > 4 {
            data.store(&channels[4], RenderPass::GLOSSY, RGBAChannel::B);
        }
        if channels.len() > 5 {
            data.store(&channels[5], RenderPass::GLOSSY, RGBAChannel::G);
        }
        if channels.len() > 6 {
            data.store(&channels[6], RenderPass::GLOSSY, RGBAChannel::R);
        }
        data
    }
}

} // verus!
