use video_preview::metadata::describe_file;
use video_preview::metadata::describe_video;
use video_preview::metadata::Metadata;
use video_preview::stream::StreamDuration;
use video_preview::stream::StreamGeometry;

fn text(metadata: &Metadata, name: &str) -> Option<String> {
    metadata.get(name).cloned()
}

fn pairs(metadata: &Metadata) -> Vec<(&str, &str)> {
    metadata.entries().iter().map(|(name, text)| (name.as_str(), text.as_str())).collect()
}

#[test]
fn new_metadata_tells_nothing() {
    let metadata = Metadata::new();
    assert!(metadata.entries().is_empty());
    assert_eq!(metadata.get("Duration"), None);
    assert_eq!(metadata.get(""), None);
}

#[test]
fn insert_gives_a_name_its_text() {
    let mut metadata = Metadata::new();
    metadata.insert("a".to_string(), "1".to_string());
    metadata.insert("b".to_string(), "2".to_string());
    assert_eq!(text(&metadata, "a"), Some("1".to_string()));
    assert_eq!(text(&metadata, "b"), Some("2".to_string()));
    assert_eq!(text(&metadata, "c"), None);
    assert_eq!(pairs(&metadata), vec![("a", "1"), ("b", "2")]);
}

#[test]
fn insert_puts_a_new_text_in_the_place_of_the_old() {
    let mut metadata = Metadata::new();
    metadata.insert("a".to_string(), "1".to_string());
    metadata.insert("b".to_string(), "2".to_string());
    metadata.insert("a".to_string(), "3".to_string());
    assert_eq!(text(&metadata, "a"), Some("3".to_string()));
    assert_eq!(text(&metadata, "b"), Some("2".to_string()));
    assert_eq!(pairs(&metadata), vec![("a", "3"), ("b", "2")]);
}

#[test]
fn extend_prefers_the_texts_of_the_other() {
    let mut first = Metadata::new();
    first.insert("a".to_string(), "1".to_string());
    first.insert("b".to_string(), "2".to_string());
    let mut second = Metadata::new();
    second.insert("b".to_string(), "20".to_string());
    second.insert("c".to_string(), "30".to_string());
    first.extend(&second);
    assert_eq!(pairs(&first), vec![("a", "1"), ("b", "20"), ("c", "30")]);
    assert_eq!(pairs(&second), vec![("b", "20"), ("c", "30")]);
    first.extend(&Metadata::new());
    assert_eq!(pairs(&first), vec![("a", "1"), ("b", "20"), ("c", "30")]);
}

#[test]
fn video_with_square_pixels_tells_size_and_duration() {
    let mut metadata = Metadata::new();
    let geometry = StreamGeometry { width: 640, height: 480, pixel_aspect_ratio: Some((1, 1)) };
    let duration = StreamDuration { ticks: 95_500, time_base: (1, 1000) };
    describe_video(&mut metadata, &geometry, &duration);
    assert_eq!(pairs(&metadata), vec![("Dimensions", "640x480"), ("Duration", "1:35")]);
}

#[test]
fn video_with_wide_pixels_tells_how_it_is_shown() {
    let mut metadata = Metadata::new();
    let geometry = StreamGeometry { width: 640, height: 480, pixel_aspect_ratio: Some((2, 1)) };
    let duration = StreamDuration { ticks: 3725, time_base: (1, 1) };
    describe_video(&mut metadata, &geometry, &duration);
    assert_eq!(
        pairs(&metadata),
        vec![
            ("Dimensions", "640x480"),
            ("Display Dimensions", "1280x480"),
            ("Pixel Aspect Ratio", "2:1"),
            ("Duration", "1:02:05"),
        ]
    );
}

#[test]
fn video_entries_take_the_place_of_older_ones() {
    let mut metadata = Metadata::new();
    metadata.insert("Duration".to_string(), "?".to_string());
    metadata.insert("File Size".to_string(), "1 KiB".to_string());
    let geometry = StreamGeometry { width: 2, height: 3, pixel_aspect_ratio: None };
    let duration = StreamDuration { ticks: 0, time_base: (1, 1000) };
    describe_video(&mut metadata, &geometry, &duration);
    assert_eq!(
        pairs(&metadata),
        vec![("Duration", "0:00"), ("File Size", "1 KiB"), ("Dimensions", "2x3")]
    );
}

#[test]
fn file_size_is_told_in_units_of_1024() {
    for (size, told) in [
        (0u64, "0 B"),
        (1023, "1023 B"),
        (1024, "1 KiB"),
        (1536, "1.50 KiB"),
        (5 * 1024 * 1024, "5 MiB"),
        (1_234_567_890, "1.15 GiB"),
    ] {
        let mut metadata = Metadata::new();
        describe_file(&mut metadata, Some(size), None);
        assert_eq!(pairs(&metadata), vec![("File Size", told)]);
    }
}

#[test]
fn file_type_is_the_extension_in_upper_case() {
    for (extension, told) in [("mp4", "MP4"), ("MkV", "MKV"), ("webm", "WEBM"), ("", "")] {
        let mut metadata = Metadata::new();
        describe_file(&mut metadata, None, Some(extension));
        assert_eq!(pairs(&metadata), vec![("File Type", told)]);
    }
}

#[test]
fn file_without_size_and_extension_tells_nothing() {
    let mut metadata = Metadata::new();
    describe_file(&mut metadata, None, None);
    assert!(metadata.entries().is_empty());
    describe_file(&mut metadata, Some(2048), Some("avi"));
    assert_eq!(pairs(&metadata), vec![("File Size", "2 KiB"), ("File Type", "AVI")]);
}

#[test]
fn sorted_entries_come_in_the_order_of_the_names() {
    let mut metadata = Metadata::new();
    for (name, told) in [
        ("File Size", "1 KiB"),
        ("File Type", "MP4"),
        ("Dimensions", "640x480"),
        ("Display Dimensions", "1280x480"),
        ("Pixel Aspect Ratio", "2:1"),
        ("Duration", "1:35"),
    ] {
        metadata.insert(name.to_string(), told.to_string());
    }
    let sorted = metadata.sorted_entries();
    let sorted: Vec<(&str, &str)> = sorted.iter().map(|(n, t)| (n.as_str(), t.as_str())).collect();
    assert_eq!(
        sorted,
        vec![
            ("Dimensions", "640x480"),
            ("Display Dimensions", "1280x480"),
            ("Duration", "1:35"),
            ("File Size", "1 KiB"),
            ("File Type", "MP4"),
            ("Pixel Aspect Ratio", "2:1"),
        ]
    );
}

#[test]
fn sorted_entries_are_ordered_as_strings_are() {
    let names = ["b", "a", "", "ab", "B", "é", "z", "aa", "a b", "Z", "~", "é!", "日本"];
    let mut metadata = Metadata::new();
    for name in names {
        metadata.insert(name.to_string(), name.to_uppercase());
    }
    let mut expected: Vec<String> = names.iter().map(|n| n.to_string()).collect();
    expected.sort();
    let sorted: Vec<String> = metadata.sorted_entries().into_iter().map(|(n, _)| n).collect();
    assert_eq!(sorted, expected);
    assert!(metadata.sorted_entries().iter().all(|(n, t)| *t == n.to_uppercase()));
    assert!(Metadata::new().sorted_entries().is_empty());
}

#[test]
fn names_are_compared_as_strings_are() {
    let names = ["", "a", "ab", "b", "B", "é", "日本", "a\u{0}", "aa"];
    for a in names {
        for b in names {
            assert_eq!(video_preview::names::comes_before(a, b), a < b);
        }
    }
}
