use video_preview::extraction::ExtractionError;
use video_preview::extraction::ExtractionResult;
use video_preview::metadata::Metadata;
use video_preview::preview::read_video_with_metadata;
use video_preview::thumbnail::generate_placeholder_thumbnail;
use video_preview::thumbnail::RgbImage;

fn told(metadata: &Metadata) -> Vec<(&str, &str)> {
    metadata.entries().iter().map(|(name, text)| (name.as_str(), text.as_str())).collect()
}

fn found() -> ExtractionResult {
    let mut metadata = Metadata::new();
    metadata.insert("Dimensions".to_string(), "2x1".to_string());
    metadata.insert("Duration".to_string(), "0:07".to_string());
    ExtractionResult {
        thumbnail: RgbImage { pixels: vec![9, 8, 7, 6, 5, 4], width: 2, height: 1 },
        metadata,
    }
}

#[test]
fn preview_shows_the_thumbnail_and_tells_of_file_and_video() {
    let preview =
        read_video_with_metadata("clip.mp4".to_string(), Some(1536), Some("mp4"), Ok(found()));
    assert_eq!(preview.title, "clip.mp4");
    assert_eq!(preview.thumbnail, RgbImage { pixels: vec![9, 8, 7, 6, 5, 4], width: 2, height: 1 });
    assert_eq!(
        told(&preview.metadata),
        vec![
            ("File Size", "1.50 KiB"),
            ("File Type", "MP4"),
            ("Dimensions", "2x1"),
            ("Duration", "0:07"),
        ]
    );
}

#[test]
fn preview_without_a_thumbnail_shows_the_placeholder() {
    for error in [
        ExtractionError::Open("unreadable".to_string()),
        ExtractionError::NoVideoStream,
        ExtractionError::Decode("no decoder".to_string()),
        ExtractionError::EmptyCandidateSet,
    ] {
        let preview =
            read_video_with_metadata("a.mkv".to_string(), Some(0), Some("mkv"), Err(error));
        assert_eq!(preview.title, "a.mkv");
        assert_eq!(preview.thumbnail, generate_placeholder_thumbnail());
        assert_eq!(told(&preview.metadata), vec![("File Size", "0 B"), ("File Type", "MKV")]);
    }
}

#[test]
fn placeholder_does_not_depend_on_the_file() {
    let first = read_video_with_metadata(
        "first.mp4".to_string(),
        Some(10),
        Some("mp4"),
        Err(ExtractionError::EmptyCandidateSet),
    );
    let second = read_video_with_metadata(
        "second.avi".to_string(),
        None,
        None,
        Err(ExtractionError::Open("empty file".to_string())),
    );
    assert_eq!(first.thumbnail, second.thumbnail);
    assert_eq!((first.thumbnail.width, first.thumbnail.height), (320, 240));
    assert!(second.metadata.entries().is_empty());
}

#[test]
fn what_the_video_tells_takes_the_place_of_what_the_file_tells() {
    let mut metadata = Metadata::new();
    metadata.insert("File Type".to_string(), "Matroska".to_string());
    let extraction = ExtractionResult {
        thumbnail: RgbImage { pixels: vec![1, 2, 3], width: 1, height: 1 },
        metadata,
    };
    let preview = read_video_with_metadata("a".to_string(), None, Some("mkv"), Ok(extraction));
    assert_eq!(told(&preview.metadata), vec![("File Type", "Matroska")]);
}

#[test]
fn popup_shows_duration_and_resolution() {
    let lines = video_preview::preview::popup_lines(&found().metadata);
    assert_eq!(lines.duration, Some("Duration: 0:07".to_string()));
    assert_eq!(lines.resolution, Some("Resolution: 2x1".to_string()));
}

#[test]
fn popup_shows_no_line_for_what_is_not_told() {
    let mut metadata = Metadata::new();
    let lines = video_preview::preview::popup_lines(&metadata);
    assert_eq!(lines.duration, None);
    assert_eq!(lines.resolution, None);
    metadata.insert("Dimensions".to_string(), "".to_string());
    metadata.insert("Display Dimensions".to_string(), "9x9".to_string());
    let lines = video_preview::preview::popup_lines(&metadata);
    assert_eq!(lines.duration, None);
    assert_eq!(lines.resolution, Some("Resolution: ".to_string()));
}
