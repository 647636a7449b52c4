use composite::light;
use composite::mask;
use composite::util::{splice, zeros, RGBAChannel};

#[test]
fn new_images_are_zero() {
    let l = light::EXRData::new(3);
    assert_eq!(l.resolution(), 3);
    assert_eq!(l.pass(light::RenderPass::AO), &vec![0u32; 27]);
    assert_eq!(l.pass(light::RenderPass::DIFFUSE), &vec![0u32; 27]);
    assert_eq!(l.pass(light::RenderPass::GLOSSY), &vec![0u32; 27]);
    let m = mask::EXRData::new(3);
    assert_eq!(m.resolution(), 3);
    assert_eq!(m.pass(mask::RenderPass::DEPTH), &vec![0u32; 9]);
    assert_eq!(m.pass(mask::RenderPass::INDEX), &vec![0u32; 36]);
    assert_eq!(m.pass(mask::RenderPass::MATTE), &vec![0u32; 36]);
    let empty = mask::EXRData::new(0);
    assert_eq!(empty.pass(mask::RenderPass::INDEX).len(), 0);
}

#[test]
fn set_channel_fills_one_plane() {
    let mut l = light::EXRData::new(2);
    l.set_channel(vec![1, 2, 3, 4], light::RenderPass::DIFFUSE, RGBAChannel::G);
    assert_eq!(l.pass(light::RenderPass::DIFFUSE), &vec![0, 0, 0, 0, 1, 2, 3, 4, 0, 0, 0, 0]);
    assert_eq!(l.pass(light::RenderPass::AO), &vec![0u32; 12]);
    l.set_channel(vec![5, 6, 7, 8], light::RenderPass::DIFFUSE, RGBAChannel::R);
    l.set_channel(vec![9, 9, 9, 9], light::RenderPass::DIFFUSE, RGBAChannel::G);
    assert_eq!(l.pass(light::RenderPass::DIFFUSE), &vec![5, 6, 7, 8, 9, 9, 9, 9, 0, 0, 0, 0]);
    assert_eq!(l.sample_at(light::RenderPass::DIFFUSE, 0, 2), 7);
    assert_eq!(l.sample_at(light::RenderPass::DIFFUSE, 1, 3), 9);
    assert_eq!(l.sample_at(light::RenderPass::GLOSSY, 2, 3), 0);
}

#[test]
fn mask_set_channel_fills_depth_index_and_matte() {
    let mut m = mask::EXRData::new(2);
    m.set_channel(vec![10, 20, 30, 40], mask::RenderPass::DEPTH, RGBAChannel::R);
    m.set_channel(vec![1, 2, 3, 4], mask::RenderPass::INDEX, RGBAChannel::A);
    m.set_channel(vec![5, 6, 7, 8], mask::RenderPass::MATTE, RGBAChannel::B);
    assert_eq!(m.pass(mask::RenderPass::DEPTH), &vec![10, 20, 30, 40]);
    assert_eq!(
        m.pass(mask::RenderPass::INDEX),
        &vec![0, 0, 0, 0, 0, 0, 0, 0, 0, 0, 0, 0, 1, 2, 3, 4]
    );
    assert_eq!(
        m.pass(mask::RenderPass::MATTE),
        &vec![0, 0, 0, 0, 0, 0, 0, 0, 5, 6, 7, 8, 0, 0, 0, 0]
    );
    assert_eq!(m.depth(2), 30);
    assert_eq!(m.hash(3, 1), 2);
    assert_eq!(m.hash(0, 1), 0);
    assert_eq!(m.weight(2, 3), 8);
}

fn numbered(count: usize) -> Vec<Vec<u32>> {
    (0..count).map(|i| vec![(100 + i) as u32]).collect()
}

#[test]
fn light_from_channels_routes_the_channels_of_the_file() {
    let l = light::EXRData::from_channels(1, &numbered(13));
    // planes R, G, B take the channels stored as B, G, R
    assert_eq!(l.pass(light::RenderPass::AO), &vec![102, 101, 100]);
    assert_eq!(l.pass(light::RenderPass::DIFFUSE), &vec![109, 108, 107]);
    assert_eq!(l.pass(light::RenderPass::GLOSSY), &vec![112, 111, 110]);
}

#[test]
fn light_from_channels_leaves_missing_planes_zero() {
    let l = light::EXRData::from_channels(1, &numbered(9));
    assert_eq!(l.pass(light::RenderPass::AO), &vec![102, 101, 100]);
    assert_eq!(l.pass(light::RenderPass::DIFFUSE), &vec![0, 108, 107]);
    assert_eq!(l.pass(light::RenderPass::GLOSSY), &vec![0, 0, 0]);
    let none = light::EXRData::from_channels(2, &Vec::new());
    assert_eq!(none.pass(light::RenderPass::AO), &vec![0u32; 12]);
}

#[test]
fn mask_from_channels_routes_the_channels_of_the_file() {
    let m = mask::EXRData::from_channels(1, &numbered(13));
    assert_eq!(m.pass(mask::RenderPass::DEPTH), &vec![112]);
    // ranks 0..3 of the hashes come from channels 7, 5, 11, 9
    assert_eq!(m.pass(mask::RenderPass::INDEX), &vec![107, 105, 111, 109]);
    // ranks 0..3 of the weights come from channels 6, 4, 10, 8
    assert_eq!(m.pass(mask::RenderPass::MATTE), &vec![106, 104, 110, 108]);
    let short = mask::EXRData::from_channels(1, &numbered(12));
    assert_eq!(short.pass(mask::RenderPass::DEPTH), &vec![0]);
    assert_eq!(short.pass(mask::RenderPass::INDEX), &vec![107, 105, 111, 109]);
}

#[test]
fn splice_overwrites_in_place() {
    let mut buffer = vec![1, 2, 3, 4, 5, 6];
    splice(&mut buffer, 2, &vec![30, 40]);
    assert_eq!(buffer, vec![1, 2, 30, 40, 5, 6]);
    splice(&mut buffer, 0, &vec![7]);
    splice(&mut buffer, 5, &vec![8]);
    splice(&mut buffer, 3, &Vec::new());
    assert_eq!(buffer, vec![7, 2, 30, 40, 5, 8]);
    assert_eq!(zeros(4), vec![0, 0, 0, 0]);
    assert_eq!(zeros(0), Vec::<u32>::new());
    assert_eq!(RGBAChannel::R.index(), 0);
    assert_eq!(RGBAChannel::G.index(), 1);
    assert_eq!(RGBAChannel::B.index(), 2);
    assert_eq!(RGBAChannel::A.index(), 3);
}

#[test]
fn glossy_channels_of_a_metal_render() {
    let l = light::EXRData::from_glossy_channels(1, &numbered(7));
    assert_eq!(l.pass(light::RenderPass::GLOSSY), &vec![106, 105, 104]);
    assert_eq!(l.pass(light::RenderPass::AO), &vec![0, 0, 0]);
    assert_eq!(l.pass(light::RenderPass::DIFFUSE), &vec![0, 0, 0]);
    let short = light::EXRData::from_glossy_channels(1, &numbered(6));
    assert_eq!(short.pass(light::RenderPass::GLOSSY), &vec![0, 105, 104]);
}
