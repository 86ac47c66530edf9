use slow_text_outline::expander::expand_glyph;
use slow_text_outline::pattern::clamp_radius;
use slow_text_outline::pattern::compute_column_height;
use slow_text_outline::radial::ceil_sqrt_u32;
use slow_text_outline::types::AtlasRect;
use slow_text_outline::types::Glyph;
use slow_text_outline::types::Instance;
use slow_text_outline::types::Layer;
use slow_text_outline::types::TextureId;

fn glyph() -> Glyph {
    Glyph {
        texture: TextureId::Index(7),
        rect: AtlasRect { min_x: 3, min_y: 5, max_x: 11, max_y: 17 },
    }
}

fn offsets(instances: &[Instance]) -> Vec<(i32, i32)> {
    instances.iter().map(|i| (i.offset_x, i.offset_y)).collect()
}

fn expand(radius: u16, anti_aliasing: bool) -> (Vec<Instance>, Vec<Instance>, usize) {
    let mut instances = Vec::new();
    let mut cache = Vec::new();
    let core_len = expand_glyph(4, 9, &glyph(), radius, anti_aliasing, &mut instances, &mut cache);
    (instances, cache, core_len)
}

/// The sum over all columns of `2 * h + 1`, less one for the center.
fn count_by_formula(radius: u16) -> usize {
    let r = radius as i32;
    let mut cells = 0usize;
    for x in -r..=r {
        cells += 2 * compute_column_height(radius, x) as usize + 1;
    }
    cells - 1
}

#[test]
fn ceil_sqrt_of_small_numbers() {
    let expected = [0u32, 1, 2, 2, 2, 3, 3, 3, 3, 3, 4];
    for (n, h) in expected.iter().enumerate() {
        assert_eq!(ceil_sqrt_u32(n as u32), *h);
    }
}

#[test]
fn ceil_sqrt_around_squares() {
    assert_eq!(ceil_sqrt_u32(99), 10);
    assert_eq!(ceil_sqrt_u32(100), 10);
    assert_eq!(ceil_sqrt_u32(101), 11);
    assert_eq!(ceil_sqrt_u32(65535 * 65535), 65535);
    assert_eq!(ceil_sqrt_u32(65535 * 65535 + 1), 65536);
    assert_eq!(ceil_sqrt_u32(u32::MAX), 65536);
}

#[test]
fn ceil_sqrt_is_least_sufficient_root() {
    for n in 0u32..5000 {
        let h = ceil_sqrt_u32(n) as u64;
        assert!(h * h >= n as u64);
        assert!(h == 0 || (h - 1) * (h - 1) < n as u64);
    }
}

#[test]
fn column_heights_of_radius_two() {
    let heights: Vec<i32> = (-2..=2).map(|x| compute_column_height(2, x)).collect();
    assert_eq!(heights, vec![0, 2, 2, 2, 0]);
}

#[test]
fn column_heights_of_radius_three() {
    let heights: Vec<i32> = (-3..=3).map(|x| compute_column_height(3, x)).collect();
    assert_eq!(heights, vec![0, 3, 3, 3, 3, 3, 0]);
}

#[test]
fn column_height_of_large_radius() {
    assert_eq!(compute_column_height(65535, 0), 65535);
    assert_eq!(compute_column_height(65535, 65535), 0);
    assert_eq!(compute_column_height(65535, -65535), 0);
    // 65535² - 65534² = 131069, between 362² and 363²
    assert_eq!(compute_column_height(65535, 65534), 363);
}

#[test]
fn radius_is_width_capped_at_max_width() {
    assert_eq!(clamp_radius(2, 8), 2);
    assert_eq!(clamp_radius(8, 8), 8);
    assert_eq!(clamp_radius(9, 8), 8);
    assert_eq!(clamp_radius(i32::MAX, 65535), 65535);
    assert_eq!(clamp_radius(0, 8), 0);
    assert_eq!(clamp_radius(-3, 8), -3);
    assert_eq!(clamp_radius(5, 0), 0);
}

#[test]
fn radius_one_is_a_plus_of_four() {
    let (instances, cache, core_len) = expand(1, false);
    assert_eq!(offsets(&instances), vec![(-1, 0), (0, -1), (0, 1), (1, 0)]);
    assert!(cache.is_empty());
    assert_eq!(core_len, 4);
}

#[test]
fn radius_two_has_sixteen_offsets() {
    let (instances, cache, core_len) = expand(2, false);
    assert_eq!(
        offsets(&instances),
        vec![
            (-2, 0),
            (-1, -2),
            (-1, -1),
            (-1, 0),
            (-1, 1),
            (-1, 2),
            (0, -2),
            (0, -1),
            (0, 1),
            (0, 2),
            (1, -2),
            (1, -1),
            (1, 0),
            (1, 1),
            (1, 2),
            (2, 0),
        ]
    );
    assert!(cache.is_empty());
    assert_eq!(core_len, 16);
}

#[test]
fn radius_zero_has_no_offsets() {
    let (instances, cache, core_len) = expand(0, false);
    assert!(instances.is_empty());
    assert!(cache.is_empty());
    assert_eq!(core_len, 0);
    let (instances, cache, core_len) = expand(0, true);
    assert!(instances.is_empty());
    assert!(cache.is_empty());
    assert_eq!(core_len, 0);
}

#[test]
fn instance_count_matches_column_sum() {
    assert_eq!(count_by_formula(1), 4);
    assert_eq!(count_by_formula(2), 16);
    assert_eq!(count_by_formula(3), 36);
    for radius in 0u16..40 {
        let (instances, cache, core_len) = expand(radius, false);
        assert_eq!(instances.len(), count_by_formula(radius));
        assert_eq!(core_len, instances.len());
        assert!(cache.is_empty());
        let (core, rim, core_len) = expand(radius, true);
        assert_eq!(core.len() + rim.len(), count_by_formula(radius));
        assert_eq!(core_len, core.len());
    }
}

#[test]
fn every_column_is_symmetric_and_visited_once() {
    for radius in 1u16..30 {
        let r = radius as i32;
        let (instances, _, _) = expand(radius, false);
        let got = offsets(&instances);
        let mut expected = Vec::new();
        for x in -r..=r {
            let h = compute_column_height(radius, x);
            for y in -h..=h {
                if (x, y) != (0, 0) {
                    expected.push((x, y));
                }
            }
        }
        assert_eq!(got, expected);
        for pair in got.windows(2) {
            assert!(pair[0] < pair[1]);
        }
        for &(x, y) in &got {
            assert!(got.contains(&(x, -y)));
            assert!(got.contains(&(-x, y)));
        }
        assert!(!got.contains(&(0, 0)));
    }
}

#[test]
fn instances_carry_owner_glyph_and_rect() {
    let (core, rim, _) = expand(3, true);
    assert!(!core.is_empty());
    assert!(!rim.is_empty());
    for instance in core.iter().chain(rim.iter()) {
        assert_eq!(instance.owner, 4);
        assert_eq!(instance.glyph, 9);
        assert_eq!(instance.rect, glyph().rect);
    }
}

#[test]
fn degenerate_rect_is_passed_through() {
    let rect = AtlasRect { min_x: 9, min_y: 9, max_x: 2, max_y: 0 };
    let glyph = Glyph { texture: TextureId::Uuid(1), rect };
    let mut instances = Vec::new();
    let mut cache = Vec::new();
    expand_glyph(0, 0, &glyph, 1, false, &mut instances, &mut cache);
    assert_eq!(instances.len(), 4);
    assert!(instances.iter().all(|i| i.rect == rect));
}

#[test]
fn without_anti_aliasing_everything_is_core() {
    for radius in 0u16..20 {
        let (instances, cache, _) = expand(radius, false);
        assert!(cache.is_empty());
        assert!(instances.iter().all(|i| i.layer == Layer::Core));
    }
}

#[test]
fn with_anti_aliasing_column_ends_are_rim() {
    for radius in 1u16..20 {
        let (plain, _, _) = expand(radius, false);
        let (core, rim, _) = expand(radius, true);
        for instance in &core {
            assert_eq!(instance.layer, Layer::Core);
            let h = compute_column_height(radius, instance.offset_x);
            assert_ne!(instance.offset_y.abs(), h);
        }
        for instance in &rim {
            assert_eq!(instance.layer, Layer::Rim);
            let h = compute_column_height(radius, instance.offset_x);
            assert_eq!(instance.offset_y.abs(), h);
        }
        let expected_core: Vec<(i32, i32)> = offsets(&plain)
            .into_iter()
            .filter(|&(x, y)| y.abs() != compute_column_height(radius, x))
            .collect();
        let expected_rim: Vec<(i32, i32)> = offsets(&plain)
            .into_iter()
            .filter(|&(x, y)| y.abs() == compute_column_height(radius, x))
            .collect();
        assert_eq!(offsets(&core), expected_core);
        assert_eq!(offsets(&rim), expected_rim);
    }
}

#[test]
fn radius_one_with_anti_aliasing_is_all_rim() {
    let (core, rim, core_len) = expand(1, true);
    assert!(core.is_empty());
    assert_eq!(core_len, 0);
    assert_eq!(offsets(&rim), vec![(-1, 0), (0, -1), (0, 1), (1, 0)]);
}

#[test]
fn radius_two_with_anti_aliasing_splits_evenly() {
    let (core, rim, core_len) = expand(2, true);
    assert_eq!(core_len, 8);
    assert_eq!(
        offsets(&core),
        vec![(-1, -1), (-1, 0), (-1, 1), (0, -1), (0, 1), (1, -1), (1, 0), (1, 1)]
    );
    assert_eq!(
        offsets(&rim),
        vec![(-2, 0), (-1, -2), (-1, 2), (0, -2), (0, 2), (1, -2), (1, 2), (2, 0)]
    );
}

#[test]
fn expansion_appends_to_what_is_there() {
    let mut instances = Vec::new();
    let mut cache = Vec::new();
    expand_glyph(0, 0, &glyph(), 2, true, &mut instances, &mut cache);
    let first_core = instances.clone();
    let first_rim = cache.clone();
    let core_len = expand_glyph(0, 1, &glyph(), 1, true, &mut instances, &mut cache);
    assert_eq!(core_len, 0);
    assert_eq!(instances, first_core);
    assert_eq!(&cache[..first_rim.len()], &first_rim[..]);
    assert_eq!(cache.len(), first_rim.len() + 4);
    assert!(cache[first_rim.len()..].iter().all(|i| i.glyph == 1));
}

#[test]
fn instance_counts_of_known_radii() {
    let expected = [(0u16, 0usize, 0usize), (1, 4, 4), (2, 16, 8), (3, 36, 12), (4, 60, 16), (5, 88, 20), (8, 224, 32), (16, 856, 64), (100, 31796, 400)];
    for (radius, total, rim_len) in expected {
        let (plain, cache, _) = expand(radius, false);
        assert_eq!(plain.len(), total);
        assert!(cache.is_empty());
        let (core, rim, core_len) = expand(radius, true);
        assert_eq!(rim.len(), rim_len);
        assert_eq!(core.len(), total - rim_len);
        assert_eq!(core_len, total - rim_len);
    }
}

#[test]
fn offsets_stay_within_the_radius() {
    for radius in 1u16..30 {
        let r = radius as i32;
        let (instances, _, _) = expand(radius, false);
        for instance in &instances {
            assert!(instance.offset_x.abs() <= r);
            assert!(instance.offset_y.abs() <= r);
        }
        assert!(instances.iter().any(|i| i.offset_x == -r));
        assert!(instances.iter().any(|i| i.offset_x == r));
        assert!(instances.iter().any(|i| i.offset_y == -r));
        assert!(instances.iter().any(|i| i.offset_y == r));
    }
}
