use video_preview::quality::brightness;
use video_preview::quality::calculate_frame_quality;
use video_preview::quality::luminance;
use video_preview::quality::QualityScore;
use video_preview::quality::LUMA_ONE;
use video_preview::quality::SCORE_ONE;

fn grey(level: u8, count: usize) -> Vec<(u8, u8, u8)> {
    vec![(level, level, level); count]
}

#[test]
fn luminance_weighs_green_most() {
    assert_eq!(luminance((255, 0, 0)), 542_130);
    assert_eq!(luminance((0, 255, 0)), 1_823_760);
    assert_eq!(luminance((0, 0, 255)), 184_110);
    assert_eq!(luminance((255, 255, 255)), 2_550_000);
    assert_eq!(luminance((10, 20, 30)), 185_960);
    assert_eq!(luminance((0, 0, 0)), 0);
}

#[test]
fn brightness_is_nothing_below_22_and_above_194() {
    assert_eq!(brightness(0, 1), 0);
    assert_eq!(brightness(10 * LUMA_ONE, 1), 0);
    assert_eq!(brightness(219_999, 1), 0);
    assert_eq!(brightness(1_940_001, 1), 0);
    assert_eq!(brightness(255 * LUMA_ONE, 1), 0);
}

#[test]
fn brightness_is_full_from_56_to_171() {
    assert_eq!(brightness(56 * LUMA_ONE, 1), SCORE_ONE);
    assert_eq!(brightness(100 * LUMA_ONE, 1), SCORE_ONE);
    assert_eq!(brightness(171 * LUMA_ONE, 1), SCORE_ONE);
}

#[test]
fn brightness_rises_in_a_line_from_22_to_56() {
    assert_eq!(brightness(39 * LUMA_ONE * 7, 7), 500_000_000_000_000_000);
    assert_eq!(brightness(40 * LUMA_ONE * 3, 3), 529_411_764_705_882_352);
    assert_eq!(brightness(220_001, 1), 2_941_176_470_588);
    assert_eq!(brightness(559_999, 1), 999_997_058_823_529_411);
}

#[test]
fn brightness_falls_in_a_line_from_171_to_194() {
    assert_eq!(brightness(1_825_000 * 2, 2), 500_000_000_000_000_000);
    assert_eq!(brightness(180 * LUMA_ONE, 1), 608_695_652_173_913_043);
    assert_eq!(brightness(1_710_001, 1), 999_995_652_173_913_043);
    assert_eq!(brightness(1_939_999, 1), 4_347_826_086_956);
}

#[test]
fn brightness_does_not_jump_at_the_breakpoints() {
    for count in [1u32, 3, 1000] {
        let n = count as u64;
        assert_eq!(brightness(22 * LUMA_ONE * n, count), 0);
        assert_eq!(brightness(56 * LUMA_ONE * n, count), SCORE_ONE);
        assert_eq!(brightness(171 * LUMA_ONE * n, count), SCORE_ONE);
        assert_eq!(brightness(194 * LUMA_ONE * n, count), 0);
        for point in [22u64, 56, 171, 194] {
            let at = brightness(point * LUMA_ONE * n, count);
            let below = brightness(point * LUMA_ONE * n - 1, count);
            let above = brightness(point * LUMA_ONE * n + 1, count);
            // one ten-thousandth of a grey level moves the score by a 230 000th at most
            assert!(at.abs_diff(below) <= SCORE_ONE / (230_000 * n) + 1);
            assert!(at.abs_diff(above) <= SCORE_ONE / (230_000 * n) + 1);
        }
    }
}

#[test]
fn brightness_stays_in_range() {
    let mut sum: u64 = 0;
    while sum <= 2_550_000 {
        assert!(brightness(sum, 1) <= SCORE_ONE);
        sum += 997;
    }
}

#[test]
fn brightness_of_no_pixels_is_nothing() {
    assert_eq!(brightness(0, 0), 0);
    assert_eq!(brightness(1_000_000, 0), 0);
}

#[test]
fn uniform_frame_has_no_variance_and_no_sharpness() {
    for level in [0u8, 10, 128, 255] {
        let score = calculate_frame_quality(&grey(level, 20), 5, 4);
        assert_eq!(score.variance, 0);
        assert_eq!(score.sharpness, 0);
    }
    let red = vec![(200u8, 10u8, 30u8); 12];
    let score = calculate_frame_quality(&red, 4, 3);
    assert_eq!(score.variance, 0);
    assert_eq!(score.sharpness, 0);
}

#[test]
fn mid_grey_frame_scores_a_third() {
    let score = calculate_frame_quality(&grey(128, 16), 4, 4);
    assert_eq!(score, QualityScore { brightness: SCORE_ONE, variance: 0, sharpness: 0 });
    assert_eq!(score.composite(), 33 * SCORE_ONE as u128);
}

#[test]
fn two_tone_frame_scores_exactly() {
    let mut pixels = grey(100, 8);
    pixels.extend(grey(120, 8));
    let score = calculate_frame_quality(&pixels, 4, 4);
    assert_eq!(score, QualityScore {
            brightness: SCORE_ONE,
            variance: 20_000_000_000_000_000,
            sharpness: 200_000_000_000_000_000,
        });
    assert_eq!(score.composite(), 33 * 1_220_000_000_000_000_000);
}

#[test]
fn bright_centre_scores_exactly() {
    let mut pixels = grey(50, 9);
    pixels[4] = (60, 60, 60);
    let score = calculate_frame_quality(&pixels, 3, 3);
    assert_eq!(score, QualityScore {
            brightness: 856_209_150_326_797_385,
            variance: 1_975_308_641_975_308,
            sharpness: 800_000_000_000_000_000,
        });
}

#[test]
fn variance_and_sharpness_stop_at_one() {
    let mut pixels = grey(0, 9);
    pixels[4] = (255, 255, 255);
    let score = calculate_frame_quality(&pixels, 3, 3);
    assert_eq!(score, QualityScore { brightness: 186_274_509_803_921_568, variance: SCORE_ONE, sharpness: SCORE_ONE });
    let stripes: Vec<(u8, u8, u8)> =
        (0..16).map(|i| if i % 2 == 0 { (0, 0, 0) } else { (255, 255, 255) }).collect();
    let score = calculate_frame_quality(&stripes, 4, 4);
    assert_eq!(score, QualityScore { brightness: SCORE_ONE, variance: SCORE_ONE, sharpness: SCORE_ONE });
    assert_eq!(score.composite(), 99 * SCORE_ONE as u128);
}

#[test]
fn frame_without_inner_pixels_has_no_sharpness() {
    let stripes: Vec<(u8, u8, u8)> =
        (0..8).map(|i| if i % 2 == 0 { (0, 0, 0) } else { (255, 255, 255) }).collect();
    assert_eq!(calculate_frame_quality(&stripes, 2, 4).sharpness, 0);
    assert_eq!(calculate_frame_quality(&stripes, 4, 2).sharpness, 0);
    assert_eq!(calculate_frame_quality(&stripes, 8, 1).sharpness, 0);
    assert_eq!(calculate_frame_quality(&stripes, 1, 8).sharpness, 0);
    assert_eq!(calculate_frame_quality(&stripes, 2, 4).variance, SCORE_ONE);
}

#[test]
fn empty_frame_scores_nothing() {
    let none: Vec<(u8, u8, u8)> = Vec::new();
    for (width, height) in [(0u32, 0u32), (0, 7), (7, 0)] {
        let score = calculate_frame_quality(&none, width, height);
        assert_eq!(score, QualityScore { brightness: 0, variance: 0, sharpness: 0 });
        assert_eq!(score.composite(), 0);
    }
}

#[test]
fn mean_100_beats_mean_10_with_the_same_variance_and_sharpness() {
    let good = vec![(100u8, 100u8, 100u8), (110, 110, 110), (90, 90, 90), (100, 100, 100)];
    let poor = vec![(10u8, 10u8, 10u8), (20, 20, 20), (0, 0, 0), (10, 10, 10)];
    let good = calculate_frame_quality(&good, 2, 2);
    let poor = calculate_frame_quality(&poor, 2, 2);
    assert_eq!(good.variance, 10_000_000_000_000_000);
    assert_eq!(good.variance, poor.variance);
    assert_eq!(good.sharpness, poor.sharpness);
    assert_eq!(good.brightness, SCORE_ONE);
    assert_eq!(poor.brightness, 0);
    assert!(good.composite() > poor.composite());
    assert_eq!(good.composite() - poor.composite(), 33 * SCORE_ONE as u128);
}

#[test]
fn scores_do_not_depend_on_when_they_are_taken() {
    let mut pixels = grey(50, 9);
    pixels[4] = (60, 60, 60);
    let first = calculate_frame_quality(&pixels, 3, 3);
    let other = calculate_frame_quality(&grey(7, 9), 3, 3);
    let again = calculate_frame_quality(&pixels, 3, 3);
    assert_eq!(first, again);
    assert_ne!(first, other);
}

#[test]
fn composite_weighs_each_score_a_third_less_a_hundredth() {
    let score = QualityScore {
        brightness: SCORE_ONE,
        variance: SCORE_ONE / 2,
        sharpness: SCORE_ONE / 4,
    };
    assert_eq!(
        score.composite(),
        33_000_000_000_000_000_000 + 16_500_000_000_000_000_000 + 8_250_000_000_000_000_000
    );
    let full = QualityScore { brightness: SCORE_ONE, variance: SCORE_ONE, sharpness: SCORE_ONE };
    assert_eq!(full.composite(), 99_000_000_000_000_000_000);
}

/// The weighted sum of a frame of one grey, in units of `10^-20`.
fn weight_of_grey(level: u8, width: u32, height: u32) -> u128 {
    let pixels = grey(level, (width * height) as usize);
    let score = calculate_frame_quality(&pixels, width, height);
    assert_eq!(score.variance, 0);
    assert_eq!(score.sharpness, 0);
    score.composite()
}

#[test]
fn uniform_frame_weighs_a_third_of_its_brightness() {
    // grey 23: 0.33 / 34 = 0.009705882352941176470588...
    assert_eq!(weight_of_grey(23, 3, 3), 970_588_235_294_117_616);
    assert_eq!(weight_of_grey(22, 3, 3), 0);
    assert_eq!(weight_of_grey(55, 3, 3), 32_029_411_764_705_882_351);
    assert_eq!(weight_of_grey(56, 3, 3), 33_000_000_000_000_000_000);
    assert_eq!(weight_of_grey(171, 3, 3), 33_000_000_000_000_000_000);
    // grey 172: 0.33 * 22 / 23 = 0.315652173913043478260869...
    assert_eq!(weight_of_grey(172, 3, 3), 31_565_217_391_304_347_806);
    assert_eq!(weight_of_grey(193, 3, 3), 1_434_782_608_695_652_161);
    assert_eq!(weight_of_grey(194, 3, 3), 0);
    for (width, height) in [(1u32, 1u32), (2, 5), (17, 3), (100, 100)] {
        assert_eq!(weight_of_grey(23, width, height), 970_588_235_294_117_616);
        assert_eq!(weight_of_grey(172, width, height), 31_565_217_391_304_347_806);
    }
    let red = vec![(200u8, 10u8, 30u8); 12];
    let score = calculate_frame_quality(&red, 4, 3);
    assert_eq!(score.brightness, brightness(luminance((200, 10, 30)) as u64, 1));
    assert_eq!(score.composite(), 33 * score.brightness as u128);
}

#[test]
fn one_grey_level_moves_the_weight_by_the_slope() {
    let third: i128 = 33 * SCORE_ONE as i128;
    for level in 0..255u8 {
        let step = weight_of_grey(level + 1, 3, 3) as i128 - weight_of_grey(level, 3, 3) as i128;
        if (22..56).contains(&level) {
            // 0.33 / 34, within 33 units of 10^-20
            assert!((34 * step - third).abs() < 33 * 34);
        } else if (171..194).contains(&level) {
            // -0.33 / 23
            assert!((23 * step + third).abs() < 33 * 23);
        } else {
            assert_eq!(step, 0);
        }
    }
}

#[test]
fn means_that_differ_on_a_slope_do_not_tie() {
    assert_eq!(brightness(2_300_000_000, 10_000), 29_411_764_705_882_352);
    assert_eq!(brightness(2_300_000_722, 10_000), 29_411_977_058_823_529);
    // the smallest step of the luminance in the largest frame
    let count = u32::MAX;
    let n = count as u64;
    assert_eq!(brightness(220_000 * n, count), 0);
    assert_eq!(brightness(220_000 * n + 1, count), 684);
    assert!(brightness(560_000 * n - 1, count) < SCORE_ONE);
    assert!(brightness(1_710_000 * n + 1, count) < SCORE_ONE);
    assert!(brightness(1_940_000 * n - 1, count) > 0);
    let mut sum = 300_000 * n;
    let mut last = brightness(sum, count);
    for _ in 0..1000 {
        sum += 1;
        let next = brightness(sum, count);
        assert!(next > last);
        last = next;
    }
}
