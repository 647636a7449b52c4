use composite::compositor::{
    composite, composite_layers, mask as pick_channel, LayerBundle, LayerCache, Visibility,
};
use composite::depth::covers_pixel;
use composite::config::{Modifier, SectionType};
use composite::error::CompositeError;
use composite::identity::{index_map, UnknownPolicy, VOID_HASH};
use composite::light;
use composite::mask;
use composite::util::RGBAChannel;

fn bits(values: [f32; 4]) -> Vec<u32> {
    values.iter().map(|v| v.to_bits()).collect()
}

fn hash(code: usize) -> u32 {
    index_map()[code].1
}

/// A bundle of 2 by 2 pixels. Radiance: pass `q` (0 diffuse, 1 glossy, 2 AO),
/// channel `c`, pixel `p` holds `base + 100 q + 10 c + p`.
fn bundle(base: f32, depth: [f32; 4], codes: [[usize; 4]; 4], weights: [[f32; 4]; 4]) -> LayerBundle {
    let mut l = light::EXRData::new(2);
    let passes = [light::RenderPass::DIFFUSE, light::RenderPass::GLOSSY, light::RenderPass::AO];
    let channels = [RGBAChannel::R, RGBAChannel::G, RGBAChannel::B, RGBAChannel::A];
    for q in 0..3 {
        for c in 0..3 {
            let plane: Vec<u32> = (0..4)
                .map(|p| (base + (100 * q + 10 * c + p) as f32).to_bits())
                .collect();
            l.set_channel(plane, passes[q], channels[c]);
        }
    }
    let mut m = mask::EXRData::new(2);
    m.set_channel(bits(depth), mask::RenderPass::DEPTH, RGBAChannel::R);
    for rank in 0..4 {
        let hashes: Vec<u32> = codes[rank].iter().map(|c| hash(*c)).collect();
        m.set_channel(hashes, mask::RenderPass::INDEX, channels[rank]);
        m.set_channel(bits(weights[rank]), mask::RenderPass::MATTE, channels[rank]);
    }
    LayerBundle { light: l, mask: m }
}

fn radiance(base: f32, p: usize) -> Vec<u32> {
    let mut out = Vec::new();
    for q in 0..3 {
        for c in 0..3 {
            out.push((base + (100 * q + 10 * c + p) as f32).to_bits());
        }
    }
    out
}

fn two_sections() -> Vec<LayerBundle> {
    let a = bundle(
        1000.0,
        [2.0, 3.0, 4.0, 0.0],
        // rank-major: codes[rank][pixel]
        [[7, 10, 1, 0], [8, 39, 2, 0], [9, 33, 3, 0], [11, 1, 4, 0]],
        [[0.5, 0.6, 0.7, 0.0], [0.25, 0.3, 0.2, 0.0], [0.125, 0.1, 0.1, 0.0], [0.0625, 0.0, 0.0, 0.0]],
    );
    let b = bundle(
        2000.0,
        [5.0, 0.0, 1.0, 0.0],
        [[2, 12, 5, 0], [3, 13, 0, 0], [4, 14, 0, 0], [5, 15, 0, 0]],
        [[0.9, 0.0, 1.0, 0.0], [0.05, 0.0, 0.75, 0.0], [0.03, 0.0, 0.5, 0.0], [0.02, 0.0, 0.25, 0.0]],
    );
    vec![a, b]
}

const BY_DEPTH: Visibility = Visibility::Depth { sentinel: 0x501502f9 };

#[test]
fn two_sections_of_two_by_two_pixels() {
    let layers = two_sections();
    let image =
        composite_layers(&layers, 2, &BY_DEPTH, &index_map(), UnknownPolicy::Fail).unwrap();

    // pixel 0: B is deeper; pixel 1: B does not cover; pixel 2: A shows the
    // void, B is seen though it is less deep; pixel 3: nothing covers
    let mut light = Vec::new();
    light.extend(radiance(2000.0, 0));
    light.extend(radiance(1000.0, 1));
    light.extend(radiance(2000.0, 2));
    light.extend(vec![0u32; 9]);
    assert_eq!(image.light, light);
    assert_eq!(image.light[0], 2000.0_f32.to_bits());
    assert_eq!(image.light[9 + 4], 1111.0_f32.to_bits());
    assert_eq!(image.light[18 + 8], 2222.0_f32.to_bits());

    assert_eq!(
        image.index,
        vec![
            // codes 2, 3, 4, 5
            194, 64, 20,
            // codes 10, 39, 33, 1
            202, 25, 6,
            // codes 5, 0, 0, 0
            5, 0, 0,
            // no material
            0, 0, 0,
        ]
    );

    let w = |x: f32| x.to_bits();
    assert_eq!(
        image.matte,
        vec![
            w(0.05), w(0.03), w(0.02),
            w(0.3), w(0.1), w(0.0),
            w(0.75), w(0.5), w(0.25),
            0, 0, 0,
        ]
    );
}

#[test]
fn the_order_of_the_layers_breaks_ties() {
    let mut layers = two_sections();
    let image = composite_layers(
        &vec![
            bundle(1.0, [3.0; 4], [[2; 4], [0; 4], [0; 4], [0; 4]], [[0.0; 4]; 4]),
            bundle(2.0, [3.0; 4], [[3; 4], [0; 4], [0; 4], [0; 4]], [[0.0; 4]; 4]),
        ],
        2,
        &BY_DEPTH,
        &index_map(),
        UnknownPolicy::Fail,
    )
    .unwrap();
    assert_eq!(image.index, vec![2, 0, 0, 2, 0, 0, 2, 0, 0, 2, 0, 0]);
    layers.reverse();
    let swapped =
        composite_layers(&layers, 2, &BY_DEPTH, &index_map(), UnknownPolicy::Fail).unwrap();
    // no ties in the two sections: the same sections are seen
    assert_eq!(swapped.index, vec![194, 64, 20, 202, 25, 6, 5, 0, 0, 0, 0, 0]);
}

#[test]
fn the_sentinel_depth_does_not_cover() {
    let far = f32::from_bits(0x501502f9);
    let layers = vec![
        bundle(1.0, [far, far, 2.0, -0.0], [[2; 4], [0; 4], [0; 4], [0; 4]], [[0.0; 4]; 4]),
        bundle(2.0, [1.0, far, 1.0, 1.0], [[3; 4], [0; 4], [0; 4], [0; 4]], [[0.0; 4]; 4]),
    ];
    let image =
        composite_layers(&layers, 2, &BY_DEPTH, &index_map(), UnknownPolicy::Fail).unwrap();
    assert_eq!(image.index, vec![3, 0, 0, 0, 0, 0, 2, 0, 0, 3, 0, 0]);
    // with another sentinel the far depth covers and is the deepest
    let other = Visibility::Depth { sentinel: 0 };
    let image = composite_layers(&layers, 2, &other, &index_map(), UnknownPolicy::Fail).unwrap();
    assert_eq!(image.index, vec![2, 0, 0, 2, 0, 0, 2, 0, 0, 3, 0, 0]);
    assert!(covers_pixel(1.0_f32.to_bits(), 0x501502f9));
    assert!(!covers_pixel(0x501502f9, 0x501502f9));
    assert!(!covers_pixel(0, 0x501502f9));
    assert!(!covers_pixel(0x8000_0000, 0x501502f9));
    assert!(covers_pixel((-1.0_f32).to_bits(), 0x501502f9));
}

#[test]
fn no_layers_give_an_empty_picture() {
    let image =
        composite_layers(&Vec::new(), 2, &BY_DEPTH, &index_map(), UnknownPolicy::Fail).unwrap();
    assert_eq!(image.light, vec![0u32; 36]);
    assert_eq!(image.index, vec![0u8; 12]);
    assert_eq!(image.matte, vec![0u32; 12]);
    let nothing =
        composite_layers(&Vec::new(), 0, &BY_DEPTH, &index_map(), UnknownPolicy::Fail).unwrap();
    assert!(nothing.light.is_empty() && nothing.index.is_empty() && nothing.matte.is_empty());
}

fn with_unknown_hash() -> Vec<LayerBundle> {
    let mut layers = two_sections();
    // pixel 1 of A, rank 2, gets a hash that the table does not hold;
    // pixel 2 of B, rank 0, too
    let mut planes_a: Vec<u32> = [9usize, 33, 3, 0].iter().map(|c| hash(*c)).collect();
    planes_a[1] = 0xdead_beef;
    layers[0].mask.set_channel(planes_a, mask::RenderPass::INDEX, RGBAChannel::B);
    let mut planes_b: Vec<u32> = [2usize, 12, 5, 0].iter().map(|c| hash(*c)).collect();
    planes_b[2] = 0x0bad_f00d;
    layers[1].mask.set_channel(planes_b, mask::RenderPass::INDEX, RGBAChannel::R);
    layers
}

#[test]
fn the_first_unknown_hash_is_reported() {
    let layers = with_unknown_hash();
    let result = composite_layers(&layers, 2, &BY_DEPTH, &index_map(), UnknownPolicy::Fail);
    assert_eq!(result.err(), Some(CompositeError::UnknownIdentity(0xdead_beef)));
}

#[test]
fn an_unknown_hash_degrades_to_none_when_asked() {
    let layers = with_unknown_hash();
    let image =
        composite_layers(&layers, 2, &BY_DEPTH, &index_map(), UnknownPolicy::DegradeToNone)
            .unwrap();
    assert_eq!(
        image.index,
        vec![
            194, 64, 20,
            // codes 10, 39, 0, 1
            202, 9, 4,
            // codes 0, 0, 0, 0
            0, 0, 0,
            0, 0, 0,
        ]
    );
}

#[test]
fn a_code_that_does_not_fit_is_reported() {
    let layers = two_sections();
    let mut table = index_map();
    table[39].0 = 64;
    let result = composite_layers(&layers, 2, &BY_DEPTH, &table, UnknownPolicy::Fail);
    assert_eq!(result.err(), Some(CompositeError::PackingOverflow(64)));
}

#[test]
fn a_mask_decides_among_three_layers() {
    let mut layers = two_sections();
    layers.push(bundle(3000.0, [0.0; 4], [[20; 4], [21; 4], [22; 4], [23; 4]], [[0.5; 4]; 4]));
    let rule = Visibility::Mask {
        zmask: vec![0, 0, 1, 1, 0, 0, 0, 1, 1, 0, 0, 0],
        threshold: 0,
    };
    let image = composite_layers(&layers, 2, &rule, &index_map(), UnknownPolicy::Fail).unwrap();
    // pixel 0: third layer; pixel 1: first; pixel 2: second (first byte
    // above the threshold); pixel 3: none. Depths and the void play no part.
    let mut light = Vec::new();
    light.extend(radiance(3000.0, 0));
    light.extend(radiance(1000.0, 1));
    light.extend(radiance(2000.0, 2));
    light.extend(vec![0u32; 9]);
    assert_eq!(image.light, light);
    // codes 20, 21, 22, 23 -> 20 | 1 << 6, 5 | 6 << 4, 1 | 23 << 2
    assert_eq!(image.index, vec![84, 101, 93, 202, 25, 6, 5, 0, 0, 0, 0, 0]);
    let half = 0.5_f32.to_bits();
    assert_eq!(image.matte[0..3], [half, half, half]);

    let strict = Visibility::Mask {
        zmask: vec![5, 5, 6, 255, 0, 0, 0, 6, 200, 5, 5, 5],
        threshold: 5,
    };
    let image = composite_layers(&layers, 2, &strict, &index_map(), UnknownPolicy::Fail).unwrap();
    assert_eq!(image.index, vec![84, 101, 93, 202, 25, 6, 5, 0, 0, 0, 0, 0]);
}

#[test]
fn select_lets_the_last_set_layer_win() {
    let mut layers = two_sections();
    layers.push(bundle(3000.0, [0.0; 4], [[20; 4], [21; 4], [22; 4], [23; 4]], [[0.5; 4]; 4]));
    // pixel 0: third; pixel 1: first; pixel 2: first and second set, the
    // second lies over the first; pixel 3: none
    let rule = Visibility::Select { zmask: vec![0, 0, 1, 255, 0, 0, 1, 1, 0, 0, 0, 0] };
    let image = composite_layers(&layers, 2, &rule, &index_map(), UnknownPolicy::Fail).unwrap();
    assert_eq!(image.index, vec![84, 101, 93, 202, 25, 6, 5, 0, 0, 0, 0, 0]);
    // the first layer above the threshold wins under the other rule
    let rule = Visibility::Mask { zmask: vec![0, 0, 1, 255, 0, 0, 1, 1, 0, 0, 0, 0], threshold: 0 };
    let image = composite_layers(&layers, 2, &rule, &index_map(), UnknownPolicy::Fail).unwrap();
    // pixel 2 shows the first layer: its codes there are 1, 2, 3, 4
    assert_eq!(image.index, vec![84, 101, 93, 202, 25, 6, 129, 48, 16, 0, 0, 0]);
}

#[test]
fn mask_picks_the_first_channel_above_the_threshold() {
    assert_eq!(pick_channel(&[6, 0, 0]), 0);
    assert_eq!(pick_channel(&[5, 6, 7]), 1);
    assert_eq!(pick_channel(&[0, 5, 255]), 2);
    assert_eq!(pick_channel(&[5, 5, 5]), -1);
    assert_eq!(pick_channel(&[0, 0, 0, 200]), -1);
    assert_eq!(pick_channel(&[255, 255, 255]), 0);
}

fn one_pixel(code: usize, depth: f32) -> LayerBundle {
    let mut l = light::EXRData::new(1);
    l.set_channel(vec![depth.to_bits()], light::RenderPass::DIFFUSE, RGBAChannel::R);
    let mut m = mask::EXRData::new(1);
    m.set_channel(vec![depth.to_bits()], mask::RenderPass::DEPTH, RGBAChannel::R);
    m.set_channel(vec![hash(code)], mask::RenderPass::INDEX, RGBAChannel::R);
    LayerBundle { light: l, mask: m }
}

fn upper_config() -> Vec<(Modifier, Option<&'static str>)> {
    vec![
        (Modifier::Caliber, Some("38")),
        (Modifier::BarrelLength, Some("Gov")),
        (Modifier::DustCoverMod, None),
        (Modifier::SlideMod, Some("Dual")),
        (Modifier::SightType, Some("Novak")),
        (Modifier::BarrelMod, None),
    ]
}

#[test]
fn composite_takes_the_layers_of_the_sections_from_the_cache() {
    let mut cache = LayerCache::new(1);
    assert_eq!(cache.resolution(), 1);
    cache.insert("slide-9mm-gov-dual".to_string(), one_pixel(4, 2.0));
    cache.insert("barrel-38-gov".to_string(), one_pixel(2, 1.0));
    cache.insert("sights-gov-novak".to_string(), one_pixel(3, 3.0));
    cache.insert("barrel-45-gov".to_string(), one_pixel(9, 9.0));
    assert!(cache.contains("barrel-38-gov"));
    assert!(!cache.contains("barrel-38-com"));
    assert_eq!(cache.get("sights-gov-novak").unwrap().mask.depth(0), 3.0_f32.to_bits());
    assert!(cache.get("sights").is_none());

    let image = composite(
        1,
        &cache,
        &upper_config(),
        SectionType::Upper,
        &BY_DEPTH,
        &index_map(),
        UnknownPolicy::Fail,
    )
    .unwrap();
    // the sights are the deepest of barrel, sights and slide
    assert_eq!(image.index, vec![3, 0, 0]);
    assert_eq!(image.light[0], 3.0_f32.to_bits());

    // a later insert under the same name takes the place of the earlier
    cache.insert("sights-gov-novak".to_string(), one_pixel(5, 0.5));
    let image = composite(
        1,
        &cache,
        &upper_config(),
        SectionType::Upper,
        &BY_DEPTH,
        &index_map(),
        UnknownPolicy::Fail,
    )
    .unwrap();
    assert_eq!(image.index, vec![4, 0, 0]);
}

#[test]
fn a_missing_asset_is_reported_by_the_position_of_its_section() {
    let mut cache = LayerCache::new(1);
    let run = |cache: &LayerCache| {
        composite(
            1,
            cache,
            &upper_config(),
            SectionType::Upper,
            &BY_DEPTH,
            &index_map(),
            UnknownPolicy::Fail,
        )
        .err()
    };
    assert_eq!(run(&cache), Some(CompositeError::MissingAsset(0)));
    cache.insert("barrel-38-gov".to_string(), one_pixel(2, 1.0));
    assert_eq!(run(&cache), Some(CompositeError::MissingAsset(1)));
    cache.insert("slide-9mm-gov-dual".to_string(), one_pixel(4, 2.0));
    assert_eq!(run(&cache), Some(CompositeError::MissingAsset(1)));
    cache.insert("sights-gov-novak".to_string(), one_pixel(3, 3.0));
    assert_eq!(run(&cache), None);
}

#[test]
fn the_void_lets_the_next_layer_through() {
    let layers = vec![one_pixel(1, 9.0), one_pixel(7, 2.0), one_pixel(8, 1.0)];
    assert_eq!(hash(1), VOID_HASH);
    let image =
        composite_layers(&layers, 1, &BY_DEPTH, &index_map(), UnknownPolicy::Fail).unwrap();
    assert_eq!(image.index, vec![7, 0, 0]);
    let only_void = vec![one_pixel(1, 9.0)];
    let image =
        composite_layers(&only_void, 1, &BY_DEPTH, &index_map(), UnknownPolicy::Fail).unwrap();
    assert_eq!(image.index, vec![0, 0, 0]);
    assert_eq!(image.light, vec![0u32; 9]);
}
