//! Compositing: merging the layers of the sections of one half into one
//! image, pixel by pixel.
//!
//! Every pixel is decided on its own. Among the sections that cover it, the
//! one with the greatest depth is seen; a section whose first-ranked
//! material there is the void does not count and lets the next one
//! through. The samples of the section that is seen go to the output
//! unchanged, and its four ranked identity hashes are decoded and packed
//! into three bytes.

use crate::config::{
    asset_names_spec, assets_spec, configurations_spec, lemma_assets_are_loaded, names_of,
    section_assets, sections_spec, Modifier, SectionType,
};
use crate::depth::{covers, covers_pixel, resolve, winner_spec};
use crate::error::CompositeError;
use crate::identity::{pack_hashes, pack_hashes_spec, UnknownPolicy, NONE_HASH, VOID_HASH};
use crate::light;
use crate::mask;
use crate::text::same_text;
use vstd::prelude::*;

verus! {

/// The layers of one rendered asset: its radiance passes and its masks.
#[derive(Debug)]
pub struct LayerBundle {
    pub light: light::EXRData,
    pub mask: mask::EXRData,
}

impl LayerBundle {
    /// Both parts are well formed and have `size` by `size` pixels.
    pub open spec fn wf(&self, size: nat) -> bool {
        &&& self.light.wf()
        &&& self.mask.wf()
        &&& self.light.resolution_spec() == size
        &&& self.mask.resolution_spec() == size
    }
}

/// Every layer bundle is well formed and has `size` by `size` pixels.
pub open spec fn layers_wf(layers: Seq<LayerBundle>, size: nat) -> bool {
    forall|i: int| 0 <= i < layers.len() ==> (#[trigger] layers[i]).wf(size)
}

/// What a composite holds for each pixel, pixel after pixel in the order of
/// the input planes.
#[derive(Debug)]
pub struct Composite {
    /// Nine samples for each pixel: the R, G and B of the diffuse, of the
    /// glossy and of the ambient-occlusion pass of the section that is
    /// seen, or zeros where none is.
    pub light: Vec<u32>,
    /// Three bytes for each pixel: the packed codes of the four ranked
    /// materials of the section that is seen.
    pub index: Vec<u8>,
    /// Three samples for each pixel: the coverage weights of ranks 1 to 3
    /// of the section that is seen, or zeros where none is.
    pub matte: Vec<u32>,
}

/// The depth of each layer at a pixel.
pub open spec fn depths_at(layers: Seq<LayerBundle>, pixel: int) -> Seq<u32> {
    Seq::new(layers.len(), |i: int| layers[i].mask.depth_at(pixel))
}

/// For each layer, whether it can be seen at a pixel: it covers the pixel
/// and its material of rank 0 there is not the void.
pub open spec fn eligible_at(layers: Seq<LayerBundle>, sentinel: u32, pixel: int) -> Seq<bool> {
    Seq::new(
        layers.len(),
        |i: int|
            covers(layers[i].mask.depth_at(pixel), sentinel) && layers[i].mask.hash_at(0, pixel)
                != VOID_HASH,
    )
}

/// The layer that is seen at a pixel, if any.
pub open spec fn winner_at(layers: Seq<LayerBundle>, sentinel: u32, pixel: int) -> Option<int> {
    winner_spec(depths_at(layers, pixel), eligible_at(layers, sentinel, pixel))
}

/// How the layer that is seen at a pixel is decided.
#[derive(Debug)]
pub enum Visibility {
    /// By the depths of the layers: the greatest depth among the layers
    /// that cover the pixel with a material other than the void. A depth
    /// of zero, or equal to `sentinel`, does not cover.
    Depth { sentinel: u32 },
    /// By an ownership mask of three bytes for each pixel, one for each of
    /// three layers: the first layer whose byte is above `threshold`.
    Mask { zmask: Vec<u8>, threshold: u8 },
    /// By an ownership mask of three bytes for each pixel, one for each of
    /// three layers, each layer laid over the ones before it: the last
    /// layer whose byte is not zero.
    Select { zmask: Vec<u8> },
}

/// The threshold above which a byte of an ownership mask claims the pixel
/// when no other is asked for.
pub const MASK_THRESHOLD: u8 = 5;

/// The first of three mask bytes that is above `threshold`, if any.
pub open spec fn mask_spec(bytes: Seq<u8>, threshold: u8) -> Option<int> {
    if bytes[0] > threshold {
        Some(0)
    } else if bytes[1] > threshold {
        Some(1)
    } else if bytes[2] > threshold {
        Some(2)
    } else {
        None
    }
}

/// The last of three mask bytes that is not zero, if any.
pub open spec fn select_spec(bytes: Seq<u8>) -> Option<int> {
    if bytes[2] != 0 {
        Some(2)
    } else if bytes[1] != 0 {
        Some(1)
    } else if bytes[0] != 0 {
        Some(0)
    } else {
        None
    }
}

/// Where at most one of three mask bytes is set, the first and the last
/// byte that is not zero are the same.
pub proof fn lemma_select_of_exclusive(bytes: Seq<u8>)
    requires
        bytes.len() == 3,
        (bytes[0] == 0 && bytes[1] == 0) || (bytes[0] == 0 && bytes[2] == 0) || (bytes[1] == 0
            && bytes[2] == 0),
    ensures
        select_spec(bytes) == mask_spec(bytes, 0),
{
}

/// The layer that is seen at a pixel under `rule`, if any.
pub open spec fn seen_at(layers: Seq<LayerBundle>, rule: Visibility, pixel: int) -> Option<int> {
    match rule {
        Visibility::Depth { sentinel } => winner_at(layers, sentinel, pixel),
        Visibility::Mask { zmask, threshold } => mask_spec(
            zmask@.subrange(3 * pixel, 3 * pixel + 3),
            threshold,
        ),
        Visibility::Select { zmask } => select_spec(zmask@.subrange(3 * pixel, 3 * pixel + 3)),
    }
}

/// The rule fits the layers: a mask has three bytes for each of the
/// `pixels` pixels and decides among exactly three layers.
pub open spec fn rule_wf(rule: Visibility, layers: nat, pixels: nat) -> bool {
    match rule {
        Visibility::Depth { sentinel } => true,
        Visibility::Mask { zmask, threshold } => layers == 3 && zmask.len() == 3 * pixels,
        Visibility::Select { zmask } => layers == 3 && zmask.len() == 3 * pixels,
    }
}

/// The four ranked identity hashes of a pixel: those of the layer that is
/// seen, or four times the hash of no material.
pub open spec fn hashes_at(layers: Seq<LayerBundle>, rule: Visibility, pixel: int) -> (
    u32,
    u32,
    u32,
    u32,
) {
    match seen_at(layers, rule, pixel) {
        Some(w) => (
            layers[w].mask.hash_at(0, pixel),
            layers[w].mask.hash_at(1, pixel),
            layers[w].mask.hash_at(2, pixel),
            layers[w].mask.hash_at(3, pixel),
        ),
        None => (NONE_HASH, NONE_HASH, NONE_HASH, NONE_HASH),
    }
}

/// The packed identity of a pixel, or the error that it gives.
pub open spec fn identity_at(
    layers: Seq<LayerBundle>,
    rule: Visibility,
    table: Seq<(u8, u32)>,
    policy: UnknownPolicy,
    pixel: int,
) -> Result<(u8, u8, u8), CompositeError> {
    pack_hashes_spec(table, policy, hashes_at(layers, rule, pixel))
}

/// The nine radiance samples of a pixel.
pub open spec fn light_at(layers: Seq<LayerBundle>, rule: Visibility, pixel: int) -> Seq<u32> {
    match seen_at(layers, rule, pixel) {
        Some(w) => {
            let light = layers[w].light;
            seq![
                light.sample(light::RenderPass::DIFFUSE, 0, pixel),
                light.sample(light::RenderPass::DIFFUSE, 1, pixel),
                light.sample(light::RenderPass::DIFFUSE, 2, pixel),
                light.sample(light::RenderPass::GLOSSY, 0, pixel),
                light.sample(light::RenderPass::GLOSSY, 1, pixel),
                light.sample(light::RenderPass::GLOSSY, 2, pixel),
                light.sample(light::RenderPass::AO, 0, pixel),
                light.sample(light::RenderPass::AO, 1, pixel),
                light.sample(light::RenderPass::AO, 2, pixel),
            ]
        },
        None => seq![0u32, 0u32, 0u32, 0u32, 0u32, 0u32, 0u32, 0u32, 0u32],
    }
}

/// The three coverage weights of a pixel, for the ranks 1, 2 and 3.
pub open spec fn matte_at(layers: Seq<LayerBundle>, rule: Visibility, pixel: int) -> Seq<u32> {
    match seen_at(layers, rule, pixel) {
        Some(w) => seq![
            layers[w].mask.weight_at(1, pixel),
            layers[w].mask.weight_at(2, pixel),
            layers[w].mask.weight_at(3, pixel),
        ],
        None => seq![0u32, 0u32, 0u32],
    }
}

/// The three identity bytes of a pixel; nothing for a pixel that gives an
/// error.
pub open spec fn index_at(
    layers: Seq<LayerBundle>,
    rule: Visibility,
    table: Seq<(u8, u32)>,
    policy: UnknownPolicy,
    pixel: int,
) -> Seq<u8> {
    match identity_at(layers, rule, table, policy, pixel) {
        Ok(bytes) => seq![bytes.0, bytes.1, bytes.2],
        Err(_) => Seq::empty(),
    }
}

/// The radiance samples of the first `count` pixels.
pub open spec fn light_raster(layers: Seq<LayerBundle>, rule: Visibility, count: nat) -> Seq<u32>
    decreases count,
{
    if count == 0 {
        Seq::empty()
    } else {
        light_raster(layers, rule, (count - 1) as nat) + light_at(layers, rule, count - 1)
    }
}

/// The coverage weights of the first `count` pixels.
pub open spec fn matte_raster(layers: Seq<LayerBundle>, rule: Visibility, count: nat) -> Seq<u32>
    decreases count,
{
    if count == 0 {
        Seq::empty()
    } else {
        matte_raster(layers, rule, (count - 1) as nat) + matte_at(layers, rule, count - 1)
    }
}

/// The identity bytes of the first `count` pixels.
pub open spec fn index_raster(
    layers: Seq<LayerBundle>,
    rule: Visibility,
    table: Seq<(u8, u32)>,
    policy: UnknownPolicy,
    count: nat,
) -> Seq<u8>
    decreases count,
{
    if count == 0 {
        Seq::empty()
    } else {
        index_raster(layers, rule, table, policy, (count - 1) as nat) + index_at(
            layers,
            rule,
            table,
            policy,
            count - 1,
        )
    }
}

/// The rasters hold the samples of each pixel at the pixel's place: nine
/// radiance samples, three identity bytes and three weights for each.
pub proof fn lemma_rasters(
    layers: Seq<LayerBundle>,
    rule: Visibility,
    table: Seq<(u8, u32)>,
    policy: UnknownPolicy,
    count: nat,
    pixel: int,
)
    requires
        0 <= pixel < count,
        forall|q: int| 0 <= q < count ==> identity_at(layers, rule, table, policy, q).is_ok(),
    ensures
        light_raster(layers, rule, count).len() == 9 * count,
        matte_raster(layers, rule, count).len() == 3 * count,
        index_raster(layers, rule, table, policy, count).len() == 3 * count,
        light_raster(layers, rule, count).subrange(9 * pixel, 9 * pixel + 9) == light_at(
            layers,
            rule,
            pixel,
        ),
        matte_raster(layers, rule, count).subrange(3 * pixel, 3 * pixel + 3) == matte_at(
            layers,
            rule,
            pixel,
        ),
        index_raster(layers, rule, table, policy, count).subrange(3 * pixel, 3 * pixel + 3)
            == index_at(layers, rule, table, policy, pixel),
    decreases count,
{
    lemma_raster_lens(layers, rule, table, policy, count);
    lemma_raster_lens(layers, rule, table, policy, (count - 1) as nat);
    let last = count - 1;
    if pixel < last {
        lemma_rasters(layers, rule, table, policy, last as nat, pixel);
        assert(light_raster(layers, rule, count).subrange(9 * pixel, 9 * pixel + 9)
            =~= light_raster(layers, rule, last as nat).subrange(9 * pixel, 9 * pixel + 9));
        assert(matte_raster(layers, rule, count).subrange(3 * pixel, 3 * pixel + 3)
            =~= matte_raster(layers, rule, last as nat).subrange(3 * pixel, 3 * pixel + 3));
        assert(index_raster(layers, rule, table, policy, count).subrange(
            3 * pixel,
            3 * pixel + 3,
        ) =~= index_raster(layers, rule, table, policy, last as nat).subrange(
            3 * pixel,
            3 * pixel + 3,
        ));
    } else {
        assert(light_raster(layers, rule, count).subrange(9 * pixel, 9 * pixel + 9)
            =~= light_at(layers, rule, pixel));
        assert(matte_raster(layers, rule, count).subrange(3 * pixel, 3 * pixel + 3)
            =~= matte_at(layers, rule, pixel));
        assert(index_raster(layers, rule, table, policy, count).subrange(
            3 * pixel,
            3 * pixel + 3,
        ) =~= index_at(layers, rule, table, policy, pixel));
    }
}

proof fn lemma_raster_lens(
    layers: Seq<LayerBundle>,
    rule: Visibility,
    table: Seq<(u8, u32)>,
    policy: UnknownPolicy,
    count: nat,
)
    requires
        forall|q: int| 0 <= q < count ==> identity_at(layers, rule, table, policy, q).is_ok(),
    ensures
        light_raster(layers, rule, count).len() == 9 * count,
        matte_raster(layers, rule, count).len() == 3 * count,
        index_raster(layers, rule, table, policy, count).len() == 3 * count,
    decreases count,
{
    if count > 0 {
        lemma_raster_lens(layers, rule, table, policy, (count - 1) as nat);
        assert(identity_at(layers, rule, table, policy, count - 1).is_ok());
    }
}

/// What compositing `layers` gives: the three rasters where every pixel has
/// an identity, and otherwise the error of the first pixel that has none.
pub open spec fn is_composite(
    result: Result<Composite, CompositeError>,
    layers: Seq<LayerBundle>,
    size: nat,
    rule: Visibility,
    table: Seq<(u8, u32)>,
    policy: UnknownPolicy,
) -> bool {
    match result {
        Ok(image) => {
            &&& forall|q: int|
                0 <= q < size * size ==> (#[trigger] identity_at(
                    layers,
                    rule,
                    table,
                    policy,
                    q,
                )).is_ok()
            &&& image.light@ == light_raster(layers, rule, size * size)
            &&& image.index@ == index_raster(layers, rule, table, policy, size * size)
            &&& image.matte@ == matte_raster(layers, rule, size * size)
        },
        Err(error) => exists|q: int|
            {
                &&& 0 <= q < size * size
                &&& #[trigger] identity_at(layers, rule, table, policy, q) == Err::<
                    (u8, u8, u8),
                    CompositeError,
                >(error)
                &&& forall|r: int|
                    0 <= r < q ==> (#[trigger] identity_at(layers, rule, table, policy, r))
                        .is_ok()
            },
    }
}

/// The bundles at the picked positions, in the order of the picks.
pub open spec fn picked(bundles: Seq<LayerBundle>, picks: Seq<usize>) -> Seq<LayerBundle> {
    Seq::new(picks.len(), |i: int| bundles[picks[i] as int])
}

/// Finds the layer that is seen at `pixel` among the picked bundles by
/// their depths.
fn resolve_pixel(
    bundles: &Vec<LayerBundle>,
    picks: &Vec<usize>,
    size: usize,
    sentinel: u32,
    pixel: usize,
) -> (winner: Option<usize>)
    requires
        forall|i: int| 0 <= i < picks.len() ==> #[trigger] picks[i] < bundles.len(),
        layers_wf(picked(bundles@, picks@), size as nat),
        pixel < size * size,
    ensures
        match winner {
            Some(w) => winner_at(picked(bundles@, picks@), sentinel, pixel as int) == Some(
                w as int,
            ) && w < picks.len(),
            None => winner_at(picked(bundles@, picks@), sentinel, pixel as int).is_none(),
        },
{
    let ghost layers = picked(bundles@, picks@);
    let mut depths: Vec<u32> = Vec::new();
    let mut eligible: Vec<bool> = Vec::new();
    let mut i: usize = 0;
    while i < picks.len()
        invariant
            i <= picks.len(),
            layers == picked(bundles@, picks@),
            forall|i: int| 0 <= i < picks.len() ==> #[trigger] picks[i] < bundles.len(),
            layers_wf(layers, size as nat),
            pixel < size * size,
            depths.len() == i,
            eligible.len() == i,
            forall|k: int| 0 <= k < i ==> #[trigger] depths@[k] == depths_at(layers, pixel as int)[k],
            forall|k: int|
                0 <= k < i ==> #[trigger] eligible@[k] == eligible_at(
                    layers,
                    sentinel,
                    pixel as int,
                )[k],
        decreases picks.len() - i,
    {
        proof {
            assert(layers[i as int].wf(size as nat));
        }
        let bundle = &bundles[picks[i]];
        let depth = bundle.mask.depth(pixel);
        let hash = bundle.mask.hash(0, pixel);
        depths.push(depth);
        eligible.push(covers_pixel(depth, sentinel) && hash != VOID_HASH);
        i += 1;
    }
    proof {
        assert(depths@ =~= depths_at(layers, pixel as int));
        assert(eligible@ =~= eligible_at(layers, sentinel, pixel as int));
    }
    resolve(&depths, &eligible)
}

/// Picks the channel of an ownership mask that claims a pixel: the position
/// of the first of the pixel's three bytes that is above
/// [`MASK_THRESHOLD`], or -1 where none is.
pub fn mask(x: &[u8]) -> (channel: i32)
    requires
        x.len() >= 3,
    ensures
        channel == (match mask_spec(x@, MASK_THRESHOLD) {
            Some(i) => i,
            None => -1,
        }),
{
    if x[0] > MASK_THRESHOLD {
        return 0;
    }
    if x[1] > MASK_THRESHOLD {
        return 1;
    }
    if x[2] > MASK_THRESHOLD {
        return 2;
    }
    -1
}

/// Finds the layer that is seen at `pixel` among the picked bundles.
fn seen_pixel(
    bundles: &Vec<LayerBundle>,
    picks: &Vec<usize>,
    size: usize,
    rule: &Visibility,
    pixel: usize,
) -> (seen: Option<usize>)
    requires
        forall|i: int| 0 <= i < picks.len() ==> #[trigger] picks[i] < bundles.len(),
        layers_wf(picked(bundles@, picks@), size as nat),
        rule_wf(*rule, picks.len() as nat, (size * size) as nat),
        pixel < size * size,
    ensures
        match seen {
            Some(w) => seen_at(picked(bundles@, picks@), *rule, pixel as int) == Some(w as int)
                && w < picks.len(),
            None => seen_at(picked(bundles@, picks@), *rule, pixel as int).is_none(),
        },
{
    match rule {
        Visibility::Depth { sentinel } => resolve_pixel(bundles, picks, size, *sentinel, pixel),
        Visibility::Mask { zmask, threshold } => {
            proof {
                assert(zmask@.subrange(3 * pixel, 3 * pixel + 3)[0] == zmask@[3 * pixel]);
                assert(zmask@.subrange(3 * pixel, 3 * pixel + 3)[1] == zmask@[3 * pixel + 1]);
                assert(zmask@.subrange(3 * pixel, 3 * pixel + 3)[2] == zmask@[3 * pixel + 2]);
            }
            if zmask[3 * pixel] > *threshold {
                Some(0)
            } else if zmask[3 * pixel + 1] > *threshold {
                Some(1)
            } else if zmask[3 * pixel + 2] > *threshold {
                Some(2)
            } else {
                None
            }
        },
        Visibility::Select { zmask } => {
            proof {
                assert(zmask@.subrange(3 * pixel, 3 * pixel + 3)[0] == zmask@[3 * pixel]);
                assert(zmask@.subrange(3 * pixel, 3 * pixel + 3)[1] == zmask@[3 * pixel + 1]);
                assert(zmask@.subrange(3 * pixel, 3 * pixel + 3)[2] == zmask@[3 * pixel + 2]);
            }
            if zmask[3 * pixel + 2] != 0 {
                Some(2)
            } else if zmask[3 * pixel + 1] != 0 {
                Some(1)
            } else if zmask[3 * pixel] != 0 {
                Some(0)
            } else {
                None
            }
        },
    }
}

/// Composites the picked bundles, in the order of the picks.
fn composite_picked(
    bundles: &Vec<LayerBundle>,
    picks: &Vec<usize>,
    size: usize,
    rule: &Visibility,
    table: &Vec<(u8, u32)>,
    policy: UnknownPolicy,
) -> (result: Result<Composite, CompositeError>)
    requires
        forall|i: int| 0 <= i < picks.len() ==> #[trigger] picks[i] < bundles.len(),
        layers_wf(picked(bundles@, picks@), size as nat),
        rule_wf(*rule, picks.len() as nat, (size * size) as nat),
        9 * (size * size) <= usize::MAX,
    ensures
        is_composite(result, picked(bundles@, picks@), size as nat, *rule, table@, policy),
{
    proof {
        assert(size * size <= usize::MAX) by (nonlinear_arith)
            requires
                9 * (size * size) <= usize::MAX,
        ;
    }
    let ghost layers = picked(bundles@, picks@);
    let n = size * size;
    let mut light: Vec<u32> = Vec::new();
    let mut index: Vec<u8> = Vec::new();
    let mut matte: Vec<u32> = Vec::new();
    let mut pixel: usize = 0;
    while pixel < n
        invariant
            pixel <= n,
            n == size * size,
            layers == picked(bundles@, picks@),
            forall|i: int| 0 <= i < picks.len() ==> #[trigger] picks[i] < bundles.len(),
            layers_wf(layers, size as nat),
            rule_wf(*rule, picks.len() as nat, (size * size) as nat),
            forall|q: int|
                0 <= q < pixel ==> (#[trigger] identity_at(layers, *rule, table@, policy, q))
                    .is_ok(),
            light@ == light_raster(layers, *rule, pixel as nat),
            index@ == index_raster(layers, *rule, table@, policy, pixel as nat),
            matte@ == matte_raster(layers, *rule, pixel as nat),
        decreases n - pixel,
    {
        let winner = seen_pixel(bundles, picks, size, rule, pixel);
        let hashes = match winner {
            Some(w) => {
                proof {
                    assert(layers[w as int].wf(size as nat));
                }
                let seen = &bundles[picks[w]];
                light.push(seen.light.sample_at(light::RenderPass::DIFFUSE, 0, pixel));
                light.push(seen.light.sample_at(light::RenderPass::DIFFUSE, 1, pixel));
                light.push(seen.light.sample_at(light::RenderPass::DIFFUSE, 2, pixel));
                light.push(seen.light.sample_at(light::RenderPass::GLOSSY, 0, pixel));
                light.push(seen.light.sample_at(light::RenderPass::GLOSSY, 1, pixel));
                light.push(seen.light.sample_at(light::RenderPass::GLOSSY, 2, pixel));
                light.push(seen.light.sample_at(light::RenderPass::AO, 0, pixel));
                light.push(seen.light.sample_at(light::RenderPass::AO, 1, pixel));
                light.push(seen.light.sample_at(light::RenderPass::AO, 2, pixel));
                matte.push(seen.mask.weight(1, pixel));
                matte.push(seen.mask.weight(2, pixel));
                matte.push(seen.mask.weight(3, pixel));
                (
                    seen.mask.hash(0, pixel),
                    seen.mask.hash(1, pixel),
                    seen.mask.hash(2, pixel),
                    seen.mask.hash(3, pixel),
                )
            },
            None => {
                let mut k: usize = 0;
                while k < 9
                    invariant
                        k <= 9,
                        light@ == light_raster(layers, *rule, pixel as nat) + Seq::new(
                            k as nat,
                            |i: int| 0u32,
                        ),
                    decreases 9 - k,
                {
                    light.push(0);
                    k += 1;
                    proof {
                        assert(light@ =~= light_raster(layers, *rule, pixel as nat) + Seq::new(
                            k as nat,
                            |i: int| 0u32,
                        ));
                    }
                }
                matte.push(0);
                matte.push(0);
                matte.push(0);
                (NONE_HASH, NONE_HASH, NONE_HASH, NONE_HASH)
            },
        };
        proof {
            assert(hashes == hashes_at(layers, *rule, pixel as int));
            assert(light@ =~= light_raster(layers, *rule, pixel as nat) + light_at(
                layers,
                *rule,
                pixel as int,
            ));
            assert(matte@ =~= matte_raster(layers, *rule, pixel as nat) + matte_at(
                layers,
                *rule,
                pixel as int,
            ));
        }
        match pack_hashes(table, policy, hashes) {
            Ok(bytes) => {
                index.push(bytes.0);
                index.push(bytes.1);
                index.push(bytes.2);
                proof {
                    assert(index@ =~= index_raster(layers, *rule, table@, policy, pixel as nat)
                        + index_at(layers, *rule, table@, policy, pixel as int));
                }
            },
            Err(error) => {
                return Err(error);
            },
        }
        pixel += 1;
    }
    Ok(Composite { light, index, matte })
}

/// Composites `layers`, the layers of the sections of one half in the
/// order of the sections, into one image of `size` by `size` pixels.
///
/// Each pixel takes the samples of the layer that is seen there under
/// `rule`. Its four
/// identity hashes are decoded with `table` under `policy` and packed. The
/// first pixel whose identity cannot be decoded or packed ends the work
/// with that pixel's error.
pub fn composite_layers(
    layers: &Vec<LayerBundle>,
    size: usize,
    rule: &Visibility,
    table: &Vec<(u8, u32)>,
    policy: UnknownPolicy,
) -> (result: Result<Composite, CompositeError>)
    requires
        layers_wf(layers@, size as nat),
        rule_wf(*rule, layers.len() as nat, (size * size) as nat),
        9 * (size * size) <= usize::MAX,
    ensures
        is_composite(result, layers@, size as nat, *rule, table@, policy),
{
    let mut picks: Vec<usize> = Vec::new();
    let mut i: usize = 0;
    while i < layers.len()
        invariant
            i <= layers.len(),
            picks.len() == i,
            forall|k: int| 0 <= k < i ==> #[trigger] picks[k] == k,
        decreases layers.len() - i,
    {
        picks.push(i);
        i += 1;
    }
    proof {
        assert(picked(layers@, picks@) =~= layers@);
    }
    composite_picked(layers, &picks, size, rule, table, policy)
}

/// In a list without duplicates, a name is found at the one place where it
/// stands.
proof fn lemma_index_of(names: Seq<Seq<char>>, name: Seq<char>, i: int)
    requires
        names.no_duplicates(),
        0 <= i < names.len(),
        names[i] == name,
    ensures
        names.contains(name),
        names.index_of(name) == i,
{
    let found = names.index_of(name);
    assert(0 <= found < names.len() && names[found] == name);
}

/// The layer bundles that are loaded, each under the name of its asset.
#[derive(Debug)]
pub struct LayerCache {
    resolution: usize,
    names: Vec<String>,
    bundles: Vec<LayerBundle>,
}

impl View for LayerCache {
    type V = Map<Seq<char>, LayerBundle>;

    /// The bundle of each name that the cache holds.
    closed spec fn view(&self) -> Map<Seq<char>, LayerBundle> {
        Map::new(
            |name: Seq<char>| names_of(self.names@).contains(name),
            |name: Seq<char>| self.bundles@[names_of(self.names@).index_of(name)],
        )
    }
}

impl LayerCache {
    /// The side, in pixels, of the images of the bundles.
    pub closed spec fn resolution_spec(&self) -> nat {
        self.resolution as nat
    }

    /// No name is held twice, and every bundle is well formed at the
    /// cache's resolution.
    pub closed spec fn wf(&self) -> bool {
        &&& self.names.len() == self.bundles.len()
        &&& names_of(self.names@).no_duplicates()
        &&& layers_wf(self.bundles@, self.resolution as nat)
    }

    /// Every bundle of a well-formed cache is well formed at the cache's
    /// resolution.
    pub proof fn lemma_bundles_wf(&self, name: Seq<char>)
        requires
            self.wf(),
            self@.dom().contains(name),
        ensures
            self@[name].wf(self.resolution_spec()),
    {
        let names = names_of(self.names@);
        let found = names.index_of(name);
        assert(0 <= found < names.len() && names[found] == name);
    }

    /// An empty cache for bundles of `resolution` by `resolution` pixels.
    pub fn new(resolution: usize) -> (cache: Self)
        ensures
            cache.wf(),
            cache.resolution_spec() == resolution,
            cache@ == Map::<Seq<char>, LayerBundle>::empty(),
    {
        let cache = LayerCache { resolution, names: Vec::new(), bundles: Vec::new() };
        proof {
            assert(cache@ =~= Map::<Seq<char>, LayerBundle>::empty());
        }
        cache
    }

    /// The side, in pixels, of the images of the bundles.
    pub fn resolution(&self) -> (resolution: usize)
        ensures
            resolution == self.resolution_spec(),
    {
        self.resolution
    }

    /// The position of `name` among the names.
    fn find(&self, name: &str) -> (found: Option<usize>)
        requires
            self.wf(),
        ensures
            match found {
                Some(i) => {
                    &&& i < self.names.len()
                    &&& self.names@[i as int]@ == name@
                    &&& names_of(self.names@).index_of(name@) == i
                    &&& self@.dom().contains(name@)
                    &&& self@[name@] == self.bundles@[i as int]
                },
                None => !names_of(self.names@).contains(name@) && !self@.dom().contains(name@),
            },
    {
        let ghost names = names_of(self.names@);
        let mut i: usize = 0;
        while i < self.names.len()
            invariant
                i <= self.names.len(),
                names == names_of(self.names@),
                names.no_duplicates(),
                forall|k: int| 0 <= k < i ==> #[trigger] names[k] != name@,
            decreases self.names.len() - i,
        {
            if same_text(self.names[i].as_str(), name) {
                proof {
                    lemma_index_of(names, name@, i as int);
                }
                return Some(i);
            }
            i += 1;
        }
        proof {
            if names.contains(name@) {
                let k = choose|k: int| 0 <= k < names.len() && names[k] == name@;
                assert(names[k] != name@);
            }
        }
        None
    }

    /// Whether a bundle is held under `name`.
    pub fn contains(&self, name: &str) -> (held: bool)
        requires
            self.wf(),
        ensures
            held == self@.dom().contains(name@),
    {
        self.find(name).is_some()
    }

    /// The bundle that is held under `name`, if any.
    pub fn get(&self, name: &str) -> (bundle: Option<&LayerBundle>)
        requires
            self.wf(),
        ensures
            match bundle {
                Some(found) => self@.dom().contains(name@) && *found == self@[name@],
                None => !self@.dom().contains(name@),
            },
    {
        match self.find(name) {
            Some(i) => Some(&self.bundles[i]),
            None => None,
        }
    }

    /// Holds `bundle` under `name`, in place of what was held under that
    /// name before.
    pub fn insert(&mut self, name: String, bundle: LayerBundle)
        requires
            old(self).wf(),
            bundle.wf(old(self).resolution_spec()),
        ensures
            final(self).wf(),
            final(self).resolution_spec() == old(self).resolution_spec(),
            final(self)@ == old(self)@.insert(name@, bundle),
    {
        let ghost old_names = names_of(self.names@);
        match self.find(name.as_str()) {
            Some(i) => {
                self.bundles.set(i, bundle);
                proof {
                    assert(names_of(self.names@) == old_names);
                    assert forall|key: Seq<char>| old_names.contains(key) implies self@[key] == old(
                        self,
                    )@.insert(name@, bundle)[key] by {
                        let at = old_names.index_of(key);
                        assert(0 <= at < old_names.len() && old_names[at] == key);
                        if key != name@ {
                            assert(at != i);
                        }
                    }
                    assert(self@ =~= old(self)@.insert(name@, bundle));
                    assert forall|k: int| 0 <= k < self.bundles@.len() implies (
                    #[trigger] self.bundles@[k]).wf(self.resolution as nat) by {
                        if k != i {
                            assert(old(self).bundles@[k].wf(self.resolution as nat));
                        }
                    }
                }
            },
            None => {
                self.names.push(name);
                self.bundles.push(bundle);
                proof {
                    let new_names = names_of(self.names@);
                    assert(new_names =~= old_names.push(name@));
                    assert(new_names.no_duplicates());
                    assert forall|key: Seq<char>| new_names.contains(key) <==> (old_names.contains(
                        key,
                    ) || key == name@) by {
                        if old_names.contains(key) {
                            let k = old_names.index_of(key);
                            assert(0 <= k < old_names.len() && old_names[k] == key);
                            assert(new_names[k] == key);
                        }
                        if key == name@ {
                            assert(new_names[old_names.len() as int] == key);
                        }
                        if new_names.contains(key) {
                            let k = new_names.index_of(key);
                            assert(0 <= k < new_names.len() && new_names[k] == key);
                            if k < old_names.len() {
                                assert(old_names[k] == key);
                            }
                        }
                    }
                    assert forall|key: Seq<char>| new_names.contains(key) implies self@[key]
                        == old(self)@.insert(name@, bundle)[key] by {
                        if old_names.contains(key) {
                            let k = old_names.index_of(key);
                            assert(0 <= k < old_names.len() && old_names[k] == key);
                            lemma_index_of(new_names, key, k);
                        } else {
                            lemma_index_of(new_names, key, old_names.len() as int);
                        }
                    }
                    assert(self@ =~= old(self)@.insert(name@, bundle));
                    assert forall|k: int| 0 <= k < self.bundles@.len() implies (
                    #[trigger] self.bundles@[k]).wf(self.resolution as nat) by {
                        if k < old(self).bundles@.len() {
                            assert(old(self).bundles@[k].wf(self.resolution as nat));
                        }
                    }
                }
            },
        }
    }
}

/// The position of the first name that is no key of `held`, if there is
/// one.
pub open spec fn first_missing(held: Set<Seq<char>>, names: Seq<Seq<char>>) -> Option<int>
    decreases names.len(),
{
    if names.len() == 0 {
        None
    } else {
        match first_missing(held, names.drop_last()) {
            Some(i) => Some(i),
            None => if held.contains(names.last()) {
                None
            } else {
                Some(names.len() - 1)
            },
        }
    }
}

/// The bundle that `held` has for each name.
pub open spec fn bundles_of(held: Map<Seq<char>, LayerBundle>, names: Seq<Seq<char>>) -> Seq<
    LayerBundle,
> {
    Seq::new(names.len(), |i: int| held[names[i]])
}

/// A cache that holds every name of a list lacks none of them.
pub proof fn lemma_none_missing(held: Set<Seq<char>>, names: Seq<Seq<char>>)
    requires
        forall|i: int| 0 <= i < names.len() ==> held.contains(#[trigger] names[i]),
    ensures
        first_missing(held, names).is_none(),
    decreases names.len(),
{
    if names.len() > 0 {
        let rest = names.drop_last();
        assert forall|i: int| 0 <= i < rest.len() implies held.contains(#[trigger] rest[i]) by {
            assert(rest[i] == names[i]);
        }
        lemma_none_missing(held, rest);
        assert(held.contains(names[names.len() - 1]));
    }
}

/// With all assets of a half loaded, no configuration of the half lacks an
/// asset.
pub proof fn lemma_loaded_half_lacks_nothing(
    held: Set<Seq<char>>,
    section_type: SectionType,
    k: int,
)
    requires
        0 <= k < configurations_spec(section_type).len(),
        forall|name: Seq<char>|
            asset_names_spec(sections_spec(section_type)).contains(name) ==> #[trigger] held.contains(
                name,
            ),
    ensures
        first_missing(held, assets_spec(section_type, configurations_spec(section_type)[k]))
            .is_none(),
{
    let names = assets_spec(section_type, configurations_spec(section_type)[k]);
    assert forall|i: int| 0 <= i < names.len() implies held.contains(#[trigger] names[i]) by {
        lemma_assets_are_loaded(section_type, k, i);
    }
    lemma_none_missing(held, names);
}

/// Composites one half of the product under `config` from the bundles in
/// `exr_data`.
///
/// The layers are the bundles of the assets that show the sections of
/// `section_type` under `config`, in the order of the sections (see
/// [`assets_spec`]). Where the cache lacks one of them, the position of the
/// first such section is reported as [`CompositeError::MissingAsset`] and
/// no pixel is looked at. Otherwise the layers are composited as
/// [`composite_layers`] says.
pub fn composite(
    size: usize,
    exr_data: &LayerCache,
    config: &Vec<(Modifier, Option<&str>)>,
    section_type: SectionType,
    rule: &Visibility,
    table: &Vec<(u8, u32)>,
    policy: UnknownPolicy,
) -> (result: Result<Composite, CompositeError>)
    requires
        exr_data.wf(),
        exr_data.resolution_spec() == size,
        rule_wf(
            *rule,
            assets_spec(section_type, config@).len(),
            (size * size) as nat,
        ),
        9 * (size * size) <= usize::MAX,
    ensures
        match first_missing(exr_data@.dom(), assets_spec(section_type, config@)) {
            Some(i) => match result {
                Err(CompositeError::MissingAsset(section)) => section == i,
                _ => false,
            },
            None => is_composite(
                result,
                bundles_of(exr_data@, assets_spec(section_type, config@)),
                size as nat,
                *rule,
                table@,
                policy,
            ),
        },
{
    let names = section_assets(section_type, config);
    let ghost wanted = assets_spec(section_type, config@);
    let mut picks: Vec<usize> = Vec::new();
    let mut i: usize = 0;
    proof {
        assert(wanted.take(0) =~= Seq::empty());
    }
    while i < names.len()
        invariant
            i <= names.len(),
            exr_data.wf(),
            wanted == names_of(names@),
            wanted == assets_spec(section_type, config@),
            picks.len() == i,
            first_missing(exr_data@.dom(), wanted.take(i as int)).is_none(),
            forall|k: int|
                0 <= k < i ==> #[trigger] picks[k] < exr_data.bundles.len()
                    && exr_data@.dom().contains(wanted[k]) && exr_data.bundles@[picks[k] as int]
                    == exr_data@[wanted[k]],
        decreases names.len() - i,
    {
        proof {
            assert(wanted.take(i + 1).drop_last() =~= wanted.take(i as int));
            assert(wanted.take(i + 1).last() == names@[i as int]@);
        }
        match exr_data.find(names[i].as_str()) {
            Some(at) => {
                proof {
                    lemma_index_of(names_of(exr_data.names@), names@[i as int]@, at as int);
                }
                picks.push(at);
            },
            None => {
                proof {
                    assert(!exr_data@.dom().contains(wanted.take(i + 1).last()));
                    assert(first_missing(exr_data@.dom(), wanted.take(i + 1)) == Some(i as int));
                    lemma_first_missing_prefix(exr_data@.dom(), wanted, i + 1);
                }
                return Err(CompositeError::MissingAsset(i));
            },
        }
        i += 1;
    }
    proof {
        assert(wanted.take(names.len() as int) =~= wanted);
        let layers = bundles_of(exr_data@, wanted);
        assert(picked(exr_data.bundles@, picks@) =~= layers);
        assert forall|k: int| 0 <= k < layers.len() implies (#[trigger] layers[k]).wf(
            size as nat,
        ) by {
            assert(exr_data.bundles@[picks[k] as int].wf(size as nat));
        }
    }
    composite_picked(&exr_data.bundles, &picks, size, rule, table, policy)
}

/// A name that is missing among the first `n` names is the first missing
/// name of the whole list.
proof fn lemma_first_missing_prefix(held: Set<Seq<char>>, names: Seq<Seq<char>>, n: int)
    requires
        0 <= n <= names.len(),
        first_missing(held, names.take(n)).is_some(),
    ensures
        first_missing(held, names) == first_missing(held, names.take(n)),
    decreases names.len() - n,
{
    if n < names.len() {
        assert(names.take(n + 1).drop_last() =~= names.take(n));
        lemma_first_missing_prefix(held, names, n + 1);
    } else {
        assert(names.take(n) =~= names);
    }
}

} // verus!
