use video_preview::stream::StreamDuration;
use video_preview::stream::StreamGeometry;

#[test]
fn square_pixels_keep_the_size() {
    for (width, height) in [(640u32, 480u32), (1, 1), (0, 0), (4_000_000_000, 3)] {
        let geometry = StreamGeometry { width, height, pixel_aspect_ratio: Some((1, 1)) };
        assert!(!geometry.has_correction());
        assert_eq!(geometry.output_dimensions(), (width, height));
        let geometry = StreamGeometry { width, height, pixel_aspect_ratio: None };
        assert!(!geometry.has_correction());
        assert_eq!(geometry.output_dimensions(), (width, height));
    }
}

#[test]
fn pixels_twice_as_wide_double_the_width() {
    let geometry = StreamGeometry { width: 640, height: 480, pixel_aspect_ratio: Some((2, 1)) };
    assert!(geometry.has_correction());
    assert_eq!(geometry.output_dimensions(), (1280, 480));
}

#[test]
fn stretched_width_is_rounded_down() {
    let geometry = StreamGeometry { width: 720, height: 576, pixel_aspect_ratio: Some((16, 15)) };
    assert_eq!(geometry.output_dimensions(), (768, 576));
    let geometry = StreamGeometry { width: 100, height: 50, pixel_aspect_ratio: Some((2, 3)) };
    assert_eq!(geometry.output_dimensions(), (66, 50));
    let geometry = StreamGeometry { width: 101, height: 50, pixel_aspect_ratio: Some((2, 2)) };
    assert!(geometry.has_correction());
    assert_eq!(geometry.output_dimensions(), (101, 50));
}

#[test]
fn stretched_width_stops_at_the_greatest_u32() {
    let geometry =
        StreamGeometry { width: 4_000_000_000, height: 2, pixel_aspect_ratio: Some((3, 1)) };
    assert_eq!(geometry.output_dimensions(), (u32::MAX, 2));
}

#[test]
fn ratio_with_a_zero_says_nothing() {
    for ratio in [(0u32, 1u32), (1, 0), (0, 0)] {
        let geometry = StreamGeometry { width: 640, height: 480, pixel_aspect_ratio: Some(ratio) };
        assert!(!geometry.has_correction());
        assert_eq!(geometry.output_dimensions(), (640, 480));
    }
}

#[test]
fn from_decoder_keeps_a_ratio_of_positive_parts_only() {
    assert_eq!(
        StreamGeometry::from_decoder(640, 480, (2, 1)),
        StreamGeometry { width: 640, height: 480, pixel_aspect_ratio: Some((2, 1)) }
    );
    assert_eq!(
        StreamGeometry::from_decoder(640, 480, (1, 1)),
        StreamGeometry { width: 640, height: 480, pixel_aspect_ratio: Some((1, 1)) }
    );
    for aspect in [(0, 1), (1, 0), (0, 0), (-2, 1), (2, -1), (-2, -1)] {
        assert_eq!(
            StreamGeometry::from_decoder(640, 480, aspect),
            StreamGeometry { width: 640, height: 480, pixel_aspect_ratio: None }
        );
    }
}

#[test]
fn whole_seconds_are_ticks_times_the_time_base() {
    let duration = StreamDuration { ticks: 3_725_000, time_base: (1, 1000) };
    assert_eq!(duration.whole_seconds(), 3725);
    let duration = StreamDuration { ticks: 95_999, time_base: (1, 1000) };
    assert_eq!(duration.whole_seconds(), 95);
    let duration = StreamDuration { ticks: 90_000 * 61 + 1, time_base: (1, 90_000) };
    assert_eq!(duration.whole_seconds(), 61);
    let duration = StreamDuration { ticks: 7, time_base: (3, 2) };
    assert_eq!(duration.whole_seconds(), 10);
}

#[test]
fn whole_seconds_of_no_or_negative_duration_are_none() {
    assert_eq!(StreamDuration { ticks: 0, time_base: (1, 1000) }.whole_seconds(), 0);
    assert_eq!(StreamDuration { ticks: 500, time_base: (0, 1000) }.whole_seconds(), 0);
    assert_eq!(StreamDuration { ticks: 500, time_base: (1, 0) }.whole_seconds(), 0);
    assert_eq!(StreamDuration { ticks: -5000, time_base: (1, 1000) }.whole_seconds(), 0);
    assert_eq!(StreamDuration { ticks: i64::MIN, time_base: (1, 1_000_000) }.whole_seconds(), 0);
    assert_eq!(StreamDuration { ticks: 5000, time_base: (-1, 1000) }.whole_seconds(), 0);
    assert_eq!(StreamDuration { ticks: -5000, time_base: (-1, 1000) }.whole_seconds(), 5);
    assert_eq!(StreamDuration { ticks: -5000, time_base: (1, -1000) }.whole_seconds(), 5);
}

#[test]
fn whole_seconds_stop_at_the_greatest_u64() {
    let duration = StreamDuration { ticks: i64::MAX, time_base: (i32::MAX, 1) };
    assert_eq!(duration.whole_seconds(), u64::MAX);
    let duration = StreamDuration { ticks: i64::MAX, time_base: (2, 1) };
    assert_eq!(duration.whole_seconds(), 2 * (i64::MAX as u64));
}

#[test]
fn seek_targets_are_the_quarters_of_the_duration() {
    let duration = StreamDuration { ticks: 100_000, time_base: (1, 1000) };
    assert_eq!(duration.seek_target(0), 0);
    assert_eq!(duration.seek_target(1), 25);
    assert_eq!(duration.seek_target(2), 50);
    assert_eq!(duration.seek_target(3), 75);
}

#[test]
fn seek_targets_are_rounded_towards_the_start() {
    let duration = StreamDuration { ticks: 10_999, time_base: (1, 1000) };
    assert_eq!(duration.seek_target(1), 2);
    assert_eq!(duration.seek_target(2), 5);
    assert_eq!(duration.seek_target(3), 8);
    let duration = StreamDuration { ticks: 4, time_base: (1, 3) };
    assert_eq!(duration.seek_target(3), 1);
    let duration = StreamDuration { ticks: -10_999, time_base: (1, 1000) };
    assert_eq!(duration.seek_target(0), 0);
    assert_eq!(duration.seek_target(1), -2);
    assert_eq!(duration.seek_target(3), -8);
}

#[test]
fn seek_targets_without_duration_are_the_start() {
    for duration in [
        StreamDuration { ticks: 0, time_base: (1, 1000) },
        StreamDuration { ticks: 777, time_base: (0, 1) },
        StreamDuration { ticks: 777, time_base: (1, 0) },
    ] {
        for sample in 0..4 {
            assert_eq!(duration.seek_target(sample), 0);
        }
    }
}

#[test]
fn seek_targets_stop_at_the_bounds_of_i64() {
    let duration = StreamDuration { ticks: i64::MAX, time_base: (i32::MAX, 1) };
    assert_eq!(duration.seek_target(0), 0);
    assert_eq!(duration.seek_target(1), i64::MAX);
    let duration = StreamDuration { ticks: i64::MIN, time_base: (i32::MAX, 1) };
    assert_eq!(duration.seek_target(3), i64::MIN);
    let duration = StreamDuration { ticks: i64::MIN, time_base: (4, 3) };
    assert_eq!(duration.seek_target(3), i64::MIN);
    let duration = StreamDuration { ticks: i64::MIN, time_base: (1, 1) };
    assert_eq!(duration.seek_target(2), i64::MIN / 2);
}
