use arena_sim::random::sample_coordinate;
use arena_sim::random::sample_direction;
use arena_sim::vector::UNIT;
use rand::rngs::StdRng;
use rand::SeedableRng;

#[test]
fn sampled_coordinate_is_below_the_extent() {
    let mut rng = StdRng::seed_from_u64(13);
    for extent in [1u32, 2, 3, 10, 1_280_000, u32::MAX] {
        for _ in 0..200 {
            let c = sample_coordinate(&mut rng, extent);
            assert!(0 <= c && c < extent as i64, "extent {} gave {}", extent, c);
        }
    }
}

#[test]
fn sampled_coordinate_of_extent_one_is_zero() {
    let mut rng = StdRng::seed_from_u64(14);
    for _ in 0..50 {
        assert_eq!(sample_coordinate(&mut rng, 1), 0);
    }
}

#[test]
fn sampled_coordinate_without_extent_is_zero_and_draws_nothing() {
    let mut rng = StdRng::seed_from_u64(15);
    let mut untouched = StdRng::seed_from_u64(15);
    assert_eq!(sample_coordinate(&mut rng, 0), 0);
    assert_eq!(sample_coordinate(&mut rng, 1000), sample_coordinate(&mut untouched, 1000));
}

#[test]
fn sampled_coordinates_cover_a_small_range() {
    let mut rng = StdRng::seed_from_u64(16);
    let mut seen = [false; 5];
    for _ in 0..200 {
        seen[sample_coordinate(&mut rng, 5) as usize] = true;
    }
    assert_eq!(seen, [true; 5]);
}

#[test]
fn sampled_direction_lies_in_the_first_quadrant_and_is_not_longer_than_unit() {
    let mut rng = StdRng::seed_from_u64(17);
    for _ in 0..500 {
        let v = sample_direction(&mut rng);
        assert!(0 <= v.x && v.x <= UNIT);
        assert!(0 <= v.y && v.y <= UNIT);
        let norm_sq = (v.x as i64).pow(2) + (v.y as i64).pow(2);
        assert!(norm_sq <= 1_000_000_000_000);
        assert!(norm_sq > 999_996_000_000 || (v.x == 0 && v.y == 0));
    }
}

#[test]
fn sampled_directions_differ() {
    let mut rng = StdRng::seed_from_u64(18);
    let first = sample_direction(&mut rng);
    let mut differs = false;
    for _ in 0..20 {
        if sample_direction(&mut rng) != first {
            differs = true;
        }
    }
    assert!(differs);
}
