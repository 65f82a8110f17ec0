//! What is shown of a video file: its name, its thumbnail, and what is told
//! beside it.

use crate::extraction::ExtractionError;
use crate::extraction::ExtractionResult;
use crate::frame::flatten;
use crate::metadata::describe_file;
use crate::metadata::with_file_entries;
use crate::metadata::Metadata;
use crate::thumbnail::generate_placeholder_thumbnail;
use crate::thumbnail::placeholder_pixels;
use crate::thumbnail::RgbImage;
use crate::thumbnail::PLACEHOLDER_HEIGHT;
use crate::thumbnail::PLACEHOLDER_WIDTH;
use vstd::prelude::*;
use vstd::string::StringExecFns;

verus! {

/// What is shown of a video file.
pub struct VideoPreview {
    /// The name of the file.
    pub title: String,
    /// What is told of the file and of the video.
    pub metadata: Metadata,
    /// The picture: a frame of the video, or the drawing in its place.
    pub thumbnail: RgbImage,
}

/// The extension of a file as a text, where it has one.
pub open spec fn extension_text(extension: Option<&str>) -> Option<Seq<char>> {
    match extension {
        Some(text) => Some(text@),
        None => None,
    }
}

/// Puts together what is shown of a video file named `title`, of `size`
/// bytes where the size is known, with the extension `extension` where it has
/// one. Where a thumbnail was taken, the preview shows it and tells what it
/// tells, beside the file's size and type; where none was, the preview shows
/// the drawing in its place and tells of the file alone.
pub fn read_video_with_metadata(
    title: String,
    size: Option<u64>,
    extension: Option<&str>,
    extraction: Result<ExtractionResult, ExtractionError>,
) -> (preview: VideoPreview)
    ensures
        preview.title == title,
        extraction matches Ok(found) ==> preview.thumbnail == found.thumbnail && preview.metadata@
            == with_file_entries(Map::empty(), size, extension_text(extension)).union_prefer_right(
            found.metadata@,
        ),
        extraction is Err ==> preview.thumbnail.width == PLACEHOLDER_WIDTH
            && preview.thumbnail.height == PLACEHOLDER_HEIGHT && preview.thumbnail.pixels@
            == flatten(placeholder_pixels()) && preview.metadata@ == with_file_entries(
            Map::empty(),
            size,
            extension_text(extension),
        ),
{
    let mut metadata = Metadata::new();
    describe_file(&mut metadata, size, extension);
    match extraction {
        Ok(found) => {
            metadata.extend(&found.metadata);
            VideoPreview { title, metadata, thumbnail: found.thumbnail }
        },
        Err(_) => VideoPreview { title, metadata, thumbnail: generate_placeholder_thumbnail() },
    }
}

/// The lines that the large view of a video shows under the picture.
pub struct PopupLines {
    /// The duration, where it is told.
    pub duration: Option<String>,
    /// The stored size, where it is told.
    pub resolution: Option<String>,
}

/// A line that says what `name` is told to be, behind `label`; no line where
/// nothing is told of it.
pub open spec fn labelled(told: Map<Seq<char>, Seq<char>>, label: Seq<char>, name: Seq<char>) -> Option<
    Seq<char>,
> {
    if told.dom().contains(name) {
        Some(label + told[name])
    } else {
        None
    }
}

/// The view of a line.
pub open spec fn line_text(line: Option<String>) -> Option<Seq<char>> {
    match line {
        Some(text) => Some(text@),
        None => None,
    }
}

/// `labelled`, computed.
fn labelled_line(metadata: &Metadata, label: &str, name: &str) -> (line: Option<String>)
    ensures
        line_text(line) == labelled(metadata@, label@, name@),
{
    match metadata.get(name) {
        Some(text) => Some(String::from_str(label).concat(text.as_str())),
        None => None,
    }
}

/// The lines that the large view of a video shows under the picture: the
/// duration behind `Duration: ` and the stored size behind `Resolution: `.
pub fn popup_lines(metadata: &Metadata) -> (lines: PopupLines)
    ensures
        line_text(lines.duration) == labelled(metadata@, "Duration: "@, "Duration"@),
        line_text(lines.resolution) == labelled(metadata@, "Resolution: "@, "Dimensions"@),
{
    PopupLines {
        duration: labelled_line(metadata, "Duration: ", "Duration"),
        resolution: labelled_line(metadata, "Resolution: ", "Dimensions"),
    }
}

} // verus!
