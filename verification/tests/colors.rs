use shape_anneal::color::{luminance_of, Black, Color, Grey, Hsv, SCALE, THRESHOLD};
use shape_anneal::hsv::{HUE_STEP, SEXTANT, TONE_STEP, TURN};

use rand::rngs::SmallRng;
use rand::SeedableRng;

#[test]
fn luminance_weights_the_channels() {
    assert_eq!(luminance_of(255, 0, 0), 54);
    assert_eq!(luminance_of(0, 255, 0), 182);
    assert_eq!(luminance_of(0, 0, 255), 18);
    assert_eq!(luminance_of(255, 255, 255), 255);
    assert_eq!(luminance_of(0, 0, 0), 0);
    assert_eq!(luminance_of(10, 200, 30), 147);
}

#[test]
fn grey_keeps_the_luminance() {
    assert_eq!(Grey::from_rgb(255, 0, 0), Grey { value: 54 });
    assert_eq!(Grey::from_rgb(255, 255, 255), Grey::white());
    assert_eq!(Grey::from_rgb(0, 0, 0), Grey::black());
    assert_eq!(Grey { value: 77 }.to_rgb(), (77, 77, 77));
}

#[test]
fn grey_round_trip_keeps_the_luminance() {
    for &(r, g, b) in &[(255u8, 0u8, 0u8), (12, 34, 56), (200, 100, 50), (1, 1, 1), (254, 255, 253)] {
        let (r2, g2, b2) = Grey::from_rgb(r, g, b).to_rgb();
        assert_eq!(luminance_of(r2, g2, b2), luminance_of(r, g, b));
    }
}

#[test]
fn grey_compare_is_linear_in_the_difference() {
    assert_eq!(Grey::black().compare(Grey::white()), 0);
    assert_eq!(Grey::white().compare(Grey::black()), 0);
    assert_eq!(Grey { value: 9 }.compare(Grey { value: 9 }), SCALE);
    assert_eq!(Grey { value: 100 }.compare(Grey { value: 110 }), 245_000);
    assert_eq!(Grey { value: 110 }.compare(Grey { value: 100 }), 245_000);
}

#[test]
fn grey_shift_stops_at_the_ends() {
    assert_eq!(Grey { value: 3 }.shifted(-5), Grey { value: 0 });
    assert_eq!(Grey { value: 253 }.shifted(4), Grey { value: 255 });
    assert_eq!(Grey { value: 100 }.shifted(-5), Grey { value: 95 });
    assert_eq!(Grey { value: 100 }.shifted(4), Grey { value: 104 });
}

#[test]
fn grey_generate_stays_below_190() {
    let mut rng = SmallRng::seed_from_u64(1);
    for _ in 0..2000 {
        assert!(Grey::generate(&mut rng).value < 190);
    }
}

#[test]
fn grey_mutate_moves_by_at_most_five() {
    let mut rng = SmallRng::seed_from_u64(2);
    let mut seen_change = false;
    for start in [0u8, 3, 100, 252, 255] {
        for _ in 0..500 {
            let next = Grey { value: start }.mutate(&mut rng);
            let moved = next.value as i32 - start as i32;
            assert!((-5..=4).contains(&moved));
            seen_change = seen_change || moved != 0;
        }
    }
    assert!(seen_change);
}

#[test]
fn black_thresholds_the_luminance() {
    assert_eq!(THRESHOLD, 110);
    assert_eq!(Black::from_rgb(110, 110, 110), Black::black());
    assert_eq!(Black::from_rgb(111, 111, 111), Black::white());
    assert_eq!(Black::from_rgb(255, 0, 0), Black { value: 0 });
    assert_eq!(Black::from_rgb(0, 255, 0), Black { value: 255 });
}

#[test]
fn black_round_trip_is_pure_black_or_white() {
    for &(r, g, b) in &[(255u8, 0u8, 0u8), (0, 255, 0), (90, 120, 30), (200, 200, 200)] {
        let rgb = Black::from_rgb(r, g, b).to_rgb();
        assert!(rgb == (0, 0, 0) || rgb == (255, 255, 255));
    }
}

#[test]
fn black_compare_is_all_or_nothing() {
    assert_eq!(Black::black().compare(Black::black()), SCALE);
    assert_eq!(Black::white().compare(Black::white()), SCALE);
    assert_eq!(Black::black().compare(Black::white()), 0);
    assert_eq!(Black::white().compare(Black::black()), 0);
}

#[test]
fn black_palette_is_fixed() {
    let mut rng = SmallRng::seed_from_u64(3);
    assert_eq!(Black::generate(&mut rng), Black::black());
    assert_eq!(Black::white().mutate(&mut rng), Black::white());
    assert_eq!(Black::black().mutate(&mut rng), Black::black());
}

#[test]
fn hsv_encodes_the_primaries() {
    assert_eq!(Hsv::from_rgb(255, 0, 0), Hsv { h: 0, s: SCALE, v: SCALE });
    assert_eq!(Hsv::from_rgb(255, 255, 0), Hsv { h: SEXTANT, s: SCALE, v: SCALE });
    assert_eq!(Hsv::from_rgb(0, 255, 0), Hsv { h: 2 * SEXTANT, s: SCALE, v: SCALE });
    assert_eq!(Hsv::from_rgb(0, 255, 255), Hsv { h: 3 * SEXTANT, s: SCALE, v: SCALE });
    assert_eq!(Hsv::from_rgb(0, 0, 255), Hsv { h: 4 * SEXTANT, s: SCALE, v: SCALE });
    assert_eq!(Hsv::from_rgb(255, 0, 255), Hsv { h: 5 * SEXTANT, s: SCALE, v: SCALE });
}

#[test]
fn hsv_encodes_greys_without_hue() {
    assert_eq!(Hsv::from_rgb(0, 0, 0), Hsv::black());
    assert_eq!(Hsv::from_rgb(255, 255, 255), Hsv::white());
    assert_eq!(Hsv::from_rgb(51, 51, 51), Hsv { h: 0, s: 0, v: 51_000 });
    assert_eq!(Hsv::black(), Hsv { h: 0, s: 0, v: 0 });
    assert_eq!(Hsv::white(), Hsv { h: 0, s: 0, v: SCALE });
}

#[test]
fn hsv_rounds_hue_and_saturation_down() {
    // 60 * 128 / 255 = 30.1176... degrees
    assert_eq!(Hsv::from_rgb(255, 128, 0), Hsv { h: 30_117, s: SCALE, v: SCALE });
    // 360 - 60 * 128 / 255 = 329.8823... degrees
    assert_eq!(Hsv::from_rgb(255, 0, 128), Hsv { h: 329_882, s: SCALE, v: SCALE });
    // delta 150 over max 200: three quarters; hue 120 + 60 * (50 - 100) / 150 = 100 degrees
    assert_eq!(Hsv::from_rgb(100, 200, 50), Hsv { h: 100_000, s: 191_250, v: 200_000 });
    // delta 2 over max 3: two thirds, rounded down
    assert_eq!(Hsv::from_rgb(1, 2, 3), Hsv { h: 210_000, s: 170_000, v: 3_000 });
    assert_eq!(Hsv::from_rgb(3, 1, 2).s, 170_000);
    assert_eq!(Hsv::from_rgb(7, 0, 4).s, SCALE);
    assert_eq!(Hsv::from_rgb(7, 4, 6).s, 109_285);
}

#[test]
fn hsv_decodes_each_sextant() {
    assert_eq!(Hsv { h: 0, s: SCALE, v: SCALE }.to_rgb(), (255, 0, 0));
    assert_eq!(Hsv { h: SEXTANT, s: SCALE, v: SCALE }.to_rgb(), (255, 255, 0));
    assert_eq!(Hsv { h: 2 * SEXTANT, s: SCALE, v: SCALE }.to_rgb(), (0, 255, 0));
    assert_eq!(Hsv { h: 3 * SEXTANT, s: SCALE, v: SCALE }.to_rgb(), (0, 255, 255));
    assert_eq!(Hsv { h: 4 * SEXTANT, s: SCALE, v: SCALE }.to_rgb(), (0, 0, 255));
    assert_eq!(Hsv { h: 5 * SEXTANT, s: SCALE, v: SCALE }.to_rgb(), (255, 0, 255));
    assert_eq!(Hsv { h: TURN - 1, s: SCALE, v: SCALE }.to_rgb(), (255, 0, 0));
    // half-way into each sextant, half saturated, at value 0.8:
    // p = 0.8 * 0.5 = 0.4, q = t = 0.8 * 0.75 = 0.6
    let half = SCALE / 2;
    let v = 204_000;
    assert_eq!(Hsv { h: 30_000, s: half, v }.to_rgb(), (204, 153, 102));
    assert_eq!(Hsv { h: 90_000, s: half, v }.to_rgb(), (153, 204, 102));
    assert_eq!(Hsv { h: 150_000, s: half, v }.to_rgb(), (102, 204, 153));
    assert_eq!(Hsv { h: 210_000, s: half, v }.to_rgb(), (102, 153, 204));
    assert_eq!(Hsv { h: 270_000, s: half, v }.to_rgb(), (153, 102, 204));
    assert_eq!(Hsv { h: 330_000, s: half, v }.to_rgb(), (204, 102, 153));
}

#[test]
fn hsv_decodes_greys_to_their_value() {
    assert_eq!(Hsv::black().to_rgb(), (0, 0, 0));
    assert_eq!(Hsv::white().to_rgb(), (255, 255, 255));
    assert_eq!(Hsv { h: 123_456, s: 0, v: 51_000 }.to_rgb(), (51, 51, 51));
    assert_eq!(Hsv { h: 0, s: 0, v: 51_999 }.to_rgb(), (51, 51, 51));
}

#[test]
fn hsv_round_trip_loses_at_most_one_level() {
    assert_eq!(Hsv::from_rgb(255, 128, 0).to_rgb(), (255, 127, 0));
    let mut worst = 0;
    for r in (0..=255u16).step_by(5) {
        for g in (0..=255u16).step_by(3) {
            for b in (0..=255u16).step_by(7) {
                let (r, g, b) = (r as u8, g as u8, b as u8);
                let (r2, g2, b2) = Hsv::from_rgb(r, g, b).to_rgb();
                for (was, is) in [(r, r2), (g, g2), (b, b2)] {
                    assert!(is <= was && was - is <= 1, "{:?}", (r, g, b));
                    worst = worst.max(was - is);
                }
                let hi = r.max(g).max(b);
                let lo = r.min(g).min(b);
                assert_eq!(r2.max(g2).max(b2), hi);
                assert_eq!(r2.min(g2).min(b2), lo);
                let lum = luminance_of(r, g, b);
                let lum2 = luminance_of(r2, g2, b2);
                assert!(lum2 <= lum && lum - lum2 <= 1);
            }
        }
    }
    assert_eq!(worst, 1);
}

#[test]
fn hsv_compare_measures_the_distance() {
    let red = Hsv::from_rgb(255, 0, 0);
    let cyan = Hsv::from_rgb(0, 255, 255);
    assert_eq!(red.compare(red), SCALE);
    // half a turn apart and otherwise alike: distance 1
    assert_eq!(red.compare(cyan), 0);
    assert_eq!(Hsv::black().compare(Hsv::white()), 0);
    // a quarter turn: distance one half
    assert_eq!(Hsv { h: 0, s: 0, v: 0 }.compare(Hsv { h: 90_000, s: 0, v: 0 }), 127_500);
    // the hue wraps: 350 and 10 degrees are 20 degrees apart, a ninth of a half turn
    assert_eq!(Hsv { h: 350_000, s: 0, v: 0 }.compare(Hsv { h: 10_000, s: 0, v: 0 }), 226_667);
    // 3-4-5: 0.3 in saturation and 0.4 in value are 0.5 apart
    let a = Hsv { h: 0, s: 0, v: 0 };
    let b = Hsv { h: 0, s: 76_500, v: 102_000 };
    assert_eq!(a.compare(b), 127_500);
}

#[test]
fn hsv_compare_goes_negative_for_distant_colours() {
    let a = Hsv { h: 0, s: 0, v: 0 };
    let b = Hsv { h: 180_000, s: SCALE, v: SCALE };
    // 1 - sqrt(3), the root rounded down
    assert_eq!(a.compare(b), SCALE - 441_672);
    assert_eq!(b.compare(a), SCALE - 441_672);
    assert!(a.compare(b) < 0);
}

#[test]
fn hsv_compare_is_symmetric() {
    let mut rng = SmallRng::seed_from_u64(4);
    for _ in 0..2000 {
        let a = Hsv::generate(&mut rng);
        let b = Hsv::generate(&mut rng);
        assert_eq!(a.compare(b), b.compare(a));
        assert!(a.compare(b) <= SCALE);
    }
}

#[test]
fn hsv_new_checks_the_ranges() {
    assert_eq!(Hsv::new(0, 0, 0), Some(Hsv { h: 0, s: 0, v: 0 }));
    assert_eq!(Hsv::new(TURN - 1, SCALE, SCALE), Some(Hsv { h: TURN - 1, s: SCALE, v: SCALE }));
    assert_eq!(Hsv::new(TURN, 0, 0), None);
    assert_eq!(Hsv::new(-1, 0, 0), None);
    assert_eq!(Hsv::new(0, SCALE + 1, 0), None);
    assert_eq!(Hsv::new(0, -1, 0), None);
    assert_eq!(Hsv::new(0, 0, SCALE + 1), None);
    assert_eq!(Hsv::new(0, 0, -1), None);
}

#[test]
fn hsv_shift_wraps_the_hue_and_clamps_the_rest() {
    let c = Hsv { h: 350_000, s: 250_000, v: 3_000 };
    assert_eq!(c.shifted(13_999, 20_399, -20_400), Hsv { h: 3_999, s: SCALE, v: 0 });
    assert_eq!(c.shifted(10_000, 0, 0), Hsv { h: 0, s: 250_000, v: 3_000 });
    let d = Hsv { h: 5_000, s: 100_000, v: 100_000 };
    assert_eq!(d.shifted(-14_000, -1, 1), Hsv { h: 351_000, s: 99_999, v: 100_001 });
    assert_eq!(d.shifted(i32::MAX, i32::MAX, i32::MIN).s, SCALE);
    assert_eq!(d.shifted(i32::MAX, i32::MAX, i32::MIN).v, 0);
    assert_eq!(d.shifted(i32::MIN, 0, 0).h, (5_000i64 + i32::MIN as i64).rem_euclid(360_000) as i32);
    assert_eq!(d.shifted(3 * TURN, 0, 0), d);
}

#[test]
fn hsv_generate_and_mutate_stay_in_range() {
    let mut rng = SmallRng::seed_from_u64(5);
    for _ in 0..2000 {
        let c = Hsv::generate(&mut rng);
        assert!(0 <= c.h && c.h < TURN);
        assert!(0 <= c.s && c.s < SCALE);
        assert!(0 <= c.v && c.v < SCALE);
        let m = c.mutate(&mut rng);
        assert!(0 <= m.h && m.h < TURN);
        assert!(0 <= m.s && m.s <= SCALE);
        assert!(0 <= m.v && m.v <= SCALE);
        let turned = (m.h - c.h).rem_euclid(TURN);
        assert!(turned < HUE_STEP || turned >= TURN - HUE_STEP);
        assert!((m.s - c.s).abs() <= TONE_STEP);
        assert!((m.v - c.v).abs() <= TONE_STEP);
    }
}
