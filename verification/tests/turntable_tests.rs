use composite::turntable::{depth_mask, depth_mask_with_sentinel};
use composite::zrank::compute_z_rank;

fn bits(values: &[f32]) -> Vec<u32> {
    values.iter().map(|v| v.to_bits()).collect()
}

const F: [u8; 3] = [1, 0, 0];
const R: [u8; 3] = [0, 1, 0];
const U: [u8; 3] = [0, 0, 1];
const N: [u8; 3] = [0, 0, 0];

fn flat(pixels: &[[u8; 3]]) -> Vec<u8> {
    pixels.iter().flat_map(|p| p.iter().copied()).collect()
}

fn one_pixel(frame: usize, front: f32, rear: f32, upper: f32, plane: f32) -> [u8; 3] {
    let mask = depth_mask(frame, &bits(&[front]), &bits(&[rear]), &bits(&[upper]), &bits(&[plane]), 1);
    [mask[0], mask[1], mask[2]]
}

#[test]
fn the_greatest_depth_among_the_covering_sections_owns() {
    // the rear does not cover; of front (5) and upper (9) the upper is seen
    assert_eq!(one_pixel(13, 5.0, 0.0, 9.0, 0.0), U);
    // the front does not cover
    assert_eq!(one_pixel(1, 0.0, 3.0, 7.0, 0.0), U);
    assert_eq!(one_pixel(1, 4.0, 3.0, 1.0, 9.0), F);
    assert_eq!(one_pixel(1, 4.0, 6.0, 1.0, 9.0), R);
    assert_eq!(one_pixel(7, 0.0, 0.0, 0.5, 0.0), U);
    assert_eq!(one_pixel(7, 0.0, 0.25, -0.0, 0.0), R);
    // a section that does not cover never owns, whatever its depth says
    for frame in 0..48 {
        assert_eq!(one_pixel(frame, 0.0, 0.0, 2.0, 1.0), U);
        assert_eq!(one_pixel(frame, 3.0, 0.0, 0.0, 1.0), F);
        assert_eq!(one_pixel(frame, 0.0, 3.0, 0.0, 1.0), R);
        assert_eq!(one_pixel(frame, 0.0, 3.0, 0.0, 9.0), R);
    }
}

#[test]
fn nothing_owns_a_pixel_that_no_section_covers() {
    for frame in 0..48 {
        assert_eq!(one_pixel(frame, 0.0, 0.0, 0.0, 0.0), N);
        assert_eq!(one_pixel(frame, -0.0, 0.0, -0.0, 5.0), N);
    }
}

#[test]
fn the_sentinel_depth_does_not_cover_either() {
    let far = 1.0e10_f32;
    let mask = |frame: usize, front: f32, rear: f32, upper: f32| {
        depth_mask_with_sentinel(
            frame,
            &bits(&[front]),
            &bits(&[rear]),
            &bits(&[upper]),
            &bits(&[1.0]),
            1,
            far.to_bits(),
        )
    };
    for frame in 0..24 {
        assert_eq!(mask(frame, far, far, 2.0), flat(&[U]));
        assert_eq!(mask(frame, 3.0, far, 2.0), flat(&[F]));
        assert_eq!(mask(frame, far, 0.0, far), flat(&[N]));
        assert_eq!(mask(frame, 0.0, 0.5, far), flat(&[R]));
    }
    // without a sentinel the far depth is the greatest
    assert_eq!(one_pixel(3, far, 5.0, 2.0, 1.0), F);
    assert_eq!(one_pixel(3, 5.0, 2.0, far, 1.0), U);
}

#[test]
fn sections_of_equal_depth_go_front_rear_upper() {
    assert_eq!(one_pixel(5, 4.0, 4.0, 4.0, 9.0), F);
    assert_eq!(one_pixel(5, 1.0, 4.0, 4.0, 9.0), R);
    assert_eq!(one_pixel(5, 0.0, 4.0, 4.0, 9.0), R);
    assert_eq!(one_pixel(5, 4.0, 1.0, 4.0, 9.0), F);
    assert_eq!(one_pixel(5, 0.0, 0.0, 4.0, 9.0), U);
}

#[test]
fn the_rear_yields_to_a_front_that_shares_the_pixel() {
    // facing away (views 1 to 11): the rear yields where it is not below the plane
    assert_eq!(one_pixel(1, 2.0, 6.0, 1.0, 5.0), F);
    assert_eq!(one_pixel(1, 2.0, 6.0, 1.0, 6.0), F);
    assert_eq!(one_pixel(11, 2.0, 6.0, 1.0, 7.0), R);
    // facing the camera (views 13 to 23): the rear yields where it is below the plane
    assert_eq!(one_pixel(13, 2.0, 6.0, 1.0, 7.0), F);
    assert_eq!(one_pixel(23, 2.0, 6.0, 1.0, 6.0), R);
    // 24 frames later the view is the same
    assert_eq!(one_pixel(37, 2.0, 6.0, 1.0, 7.0), F);
    assert_eq!(one_pixel(25, 2.0, 6.0, 1.0, 7.0), R);
    // a front that does not cover the pixel takes nothing over
    assert_eq!(one_pixel(1, 0.0, 6.0, 1.0, 5.0), R);
    assert_eq!(one_pixel(13, 0.0, 6.0, 1.0, 7.0), R);
    // the upper section yields to nobody
    assert_eq!(one_pixel(1, 2.0, 6.0, 8.0, 5.0), U);
}

#[test]
fn side_views_split_the_rear_by_column() {
    let n = 16;
    let front = bits(&vec![1.0; n]);
    let rear = bits(&vec![5.0; n]);
    let upper = bits(&vec![1.0; n]);
    let plane = bits(&vec![0.0; n]);
    // width 4: the right view yields right of column (4 * 49 / 50) / 2 = 1
    let row = [R, R, F, F];
    let mask = depth_mask(0, &front, &rear, &upper, &plane, 4);
    assert_eq!(mask, flat(&[row, row, row, row].concat()));
    // the left view yields up to column (4 * 51 / 50) / 2 = 2
    let row = [F, F, F, R];
    let mask = depth_mask(12, &front, &rear, &upper, &plane, 4);
    assert_eq!(mask, flat(&[row, row, row, row].concat()));
    let mask = depth_mask(24, &front, &rear, &upper, &plane, 4);
    assert_eq!(mask[0..12], flat(&[R, R, F, F])[..]);
    // where the front does not cover, the rear keeps its pixels
    let none = bits(&vec![0.0; n]);
    let row = [R, R, R, R];
    let mask = depth_mask(0, &none, &rear, &upper, &plane, 4);
    assert_eq!(mask, flat(&[row, row, row, row].concat()));
}

#[test]
fn seam_priority_is_front_then_rear_then_upper() {
    // 3 by 3, covered in three corners only
    let mut front = vec![0.0_f32; 9];
    let mut rear = vec![0.0_f32; 9];
    let mut upper = vec![0.0_f32; 9];
    front[0] = 1.0; // top left is the front's
    rear[2] = 1.0; // top right is the rear's
    upper[8] = 1.0; // bottom right is the upper's
    let plane = bits(&vec![9.0; 9]);
    let mask = depth_mask(5, &bits(&front), &bits(&rear), &bits(&upper), &plane, 3);
    assert_eq!(
        mask,
        flat(&[
            F, F, R, //
            F, F, R, //
            N, U, U,
        ])
    );
}

#[test]
fn a_seam_far_from_any_owner_goes_to_no_section() {
    let mut front = vec![0.0_f32; 16];
    front[0] = 1.0;
    let rest = bits(&vec![0.0; 16]);
    let mask = depth_mask(3, &bits(&front), &rest, &rest, &rest, 4);
    let mut expected = vec![N; 16];
    expected[0] = F;
    expected[1] = F;
    expected[4] = F;
    expected[5] = F;
    assert_eq!(mask, flat(&expected));
    assert_eq!(depth_mask(3, &Vec::new(), &Vec::new(), &Vec::new(), &Vec::new(), 0), Vec::<u8>::new());
}

#[test]
fn a_covered_pixel_is_no_seam() {
    // the middle pixel is covered by the upper section alone; the front
    // around it takes the uncovered pixels but not the covered one
    let mut front = vec![0.0_f32; 9];
    front[0] = 2.0;
    let mut upper = vec![0.0_f32; 9];
    upper[4] = 0.5;
    let none = bits(&vec![0.0; 9]);
    let mask = depth_mask(2, &bits(&front), &none, &bits(&upper), &none, 3);
    assert_eq!(
        mask,
        flat(&[
            F, F, U, //
            F, U, U, //
            U, U, U,
        ])
    );
}

#[test]
fn every_pixel_goes_to_at_most_one_section() {
    let front = bits(&[0.1, 0.9, 0.3, 0.3, 0.5, 0.2, 0.7, 0.7, 0.7]);
    let rear = bits(&[0.2, 0.1, 0.3, 0.4, 0.5, 0.1, 0.7, 0.2, 0.9]);
    let upper = bits(&[0.3, 0.5, 0.3, 0.1, 0.5, 0.6, 0.7, 0.8, 0.1]);
    let plane = bits(&[0.15; 9]);
    for frame in 0..48 {
        let mask = depth_mask(frame, &front, &rear, &upper, &plane, 3);
        assert_eq!(mask.len(), 27);
        for p in 0..9 {
            assert!(mask[3 * p] + mask[3 * p + 1] + mask[3 * p + 2] <= 1);
        }
    }
}

#[test]
fn z_rank_of_a_single_pixel_ranks_the_raw_depths() {
    assert_eq!(compute_z_rank(1, &bits(&[0.2]), &bits(&[0.5]), &bits(&[0.3])), vec![1, 2, 0]);
    assert_eq!(compute_z_rank(1, &bits(&[0.5]), &bits(&[0.5]), &bits(&[0.5])), vec![0, 1, 2]);
    assert_eq!(compute_z_rank(1, &bits(&[0.1]), &bits(&[0.1]), &bits(&[0.9])), vec![2, 0, 1]);
    assert_eq!(compute_z_rank(0, &Vec::new(), &Vec::new(), &Vec::new()), Vec::<u8>::new());
}

#[test]
fn z_rank_takes_the_farther_of_own_and_nearest_around() {
    // in a 2 by 2 image every pixel is next to every other
    let front = bits(&[0.2, 0.4, 0.6, 2.0]);
    let rear = bits(&[0.5, 0.5, 0.5, 0.5]);
    let upper = bits(&[0.3, 0.9, 0.1, 0.3]);
    // adjusted: front 0.2 0.4 0.6 0.2 (2.0 holds no depth, the nearest
    // around is 0.2); rear 0.5 each; upper 0.3 0.9 0.1 0.3
    assert_eq!(
        compute_z_rank(2, &front, &rear, &upper),
        vec![
            1, 2, 0, //
            2, 1, 0, //
            0, 1, 2, //
            1, 2, 0,
        ]
    );
}

#[test]
fn z_rank_looks_one_pixel_around_only() {
    // 3 by 1 is not square; use 3 by 3 with a near pixel in one corner
    let mut front = vec![0.8_f32; 9];
    front[0] = 0.1;
    let rear = bits(&vec![0.5; 9]);
    let upper = bits(&vec![0.05; 9]);
    let ranks = compute_z_rank(3, &bits(&front), &rear, &upper);
    // the front is the deepest everywhere: the nearest around never lifts a
    // depth, and the own depth 0.8 stands but at the corner itself
    for p in 0..9 {
        let expected: [u8; 3] = if p == 0 { [1, 0, 2] } else { [0, 1, 2] };
        assert_eq!(ranks[3 * p..3 * p + 3], expected, "pixel {}", p);
    }
}
