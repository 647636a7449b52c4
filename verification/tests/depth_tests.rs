use composite::depth::{key_of, rank, resolve};

fn d(x: f32) -> u32 {
    x.to_bits()
}

#[test]
fn farthest_covered_candidate_wins() {
    // coverage [true, false, true], depths [5, _, 9]
    let depths = vec![d(5.0), d(100.0), d(9.0)];
    let eligible = vec![true, false, true];
    assert_eq!(resolve(&depths, &eligible), Some(2));
    let depths = vec![d(5.0), d(0.5), d(9.0)];
    assert_eq!(resolve(&depths, &eligible), Some(2));
}

#[test]
fn no_coverage_gives_no_winner() {
    let depths = vec![d(5.0), d(7.0), d(9.0)];
    assert_eq!(resolve(&depths, &vec![false, false, false]), None);
    assert_eq!(resolve(&Vec::new(), &Vec::new()), None);
}

#[test]
fn ties_go_to_the_earlier_candidate() {
    let depths = vec![d(3.0), d(8.0), d(8.0), d(8.0)];
    assert_eq!(resolve(&depths, &vec![true, true, true, true]), Some(1));
    assert_eq!(resolve(&depths, &vec![true, false, true, true]), Some(2));
    assert_eq!(resolve(&depths, &vec![true, false, false, false]), Some(0));
    // both zeros are the same depth
    let zeros = vec![d(-0.0), d(0.0)];
    assert_eq!(resolve(&zeros, &vec![true, true]), Some(0));
}

#[test]
fn an_ineligible_candidate_never_wins() {
    let depths = vec![d(1.0), d(1000.0)];
    assert_eq!(resolve(&depths, &vec![true, false]), Some(0));
}

#[test]
fn keys_order_as_the_floats_do() {
    let samples = [
        f32::NEG_INFINITY,
        -1.0e30,
        -84473296.0,
        -1.5,
        -1.0,
        -1.0e-30,
        -0.0,
        0.0,
        1.0e-38,
        0.25,
        1.0,
        1.0000001,
        9.80960464477539,
        1.0e10,
        f32::MAX,
        f32::INFINITY,
    ];
    for a in samples {
        for b in samples {
            assert_eq!(key_of(d(a)) < key_of(d(b)), a < b, "{} < {}", a, b);
            assert_eq!(key_of(d(a)) == key_of(d(b)), a == b, "{} == {}", a, b);
        }
    }
    assert_eq!(key_of(0), 0);
    assert_eq!(key_of(0x8000_0000), 0);
    assert_eq!(key_of(1), 1);
    assert_eq!(key_of(0x8000_0001), -1);
    assert_eq!(key_of(0xffff_ffff), -0x7fff_ffff);
    assert_eq!(key_of(0x7fff_ffff), 0x7fff_ffff);
}

#[test]
fn rank_orders_by_depth_descending_and_is_stable() {
    assert_eq!(rank(&vec![d(5.0), d(1.0), d(9.0)]), vec![2, 0, 1]);
    assert_eq!(rank(&vec![d(1.0), d(2.0), d(3.0)]), vec![2, 1, 0]);
    assert_eq!(rank(&vec![d(3.0), d(2.0), d(1.0)]), vec![0, 1, 2]);
    assert_eq!(rank(&vec![d(4.0), d(4.0), d(4.0)]), vec![0, 1, 2]);
    assert_eq!(rank(&vec![d(4.0), d(7.0), d(4.0), d(7.0)]), vec![1, 3, 0, 2]);
    assert_eq!(rank(&vec![d(-2.0), d(0.0), d(-1.0)]), vec![1, 2, 0]);
    assert_eq!(rank(&Vec::new()), Vec::<usize>::new());
    assert_eq!(rank(&vec![d(1.0)]), vec![0]);
}

#[test]
fn the_first_of_the_ranking_is_the_winner_among_all() {
    let cases = vec![
        vec![d(5.0), d(1.0), d(9.0)],
        vec![d(2.0), d(2.0)],
        vec![d(0.0), d(0.5), d(0.5), d(0.25)],
    ];
    for depths in cases {
        let all = vec![true; depths.len()];
        assert_eq!(resolve(&depths, &all), Some(rank(&depths)[0]));
    }
}
