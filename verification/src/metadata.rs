//! What is told of a video beside its picture: named texts, one to a name.

use crate::names::comes_before;
use crate::names::lemma_names_are_ordered;
use crate::names::name_before;
use crate::stream::StreamDuration;
use crate::stream::StreamGeometry;
use crate::text::duration_text;
use crate::text::format_dimensions;
use crate::text::format_duration;
use crate::text::format_ratio;
use crate::text::pair_text;
use vstd::prelude::*;
use vstd::string::StringExecFns;

verus! {

/// The map that a list of names and texts stands for: each name with the
/// text that was listed for it last.
pub open spec fn entries_map(entries: Seq<(String, String)>) -> Map<Seq<char>, Seq<char>>
    decreases entries.len(),
{
    if entries.len() == 0 {
        Map::empty()
    } else {
        entries_map(entries.drop_last()).insert(entries.last().0@, entries.last().1@)
    }
}

/// Whether no name is listed twice.
pub open spec fn distinct_names(entries: Seq<(String, String)>) -> bool {
    forall|i: int, j: int| 0 <= i < j < entries.len() ==> entries[i].0@ != entries[j].0@
}

/// Whether no name is listed before one that comes before it.
pub open spec fn sorted_by_name(entries: Seq<(String, String)>) -> bool {
    forall|i: int, j: int|
        0 <= i < j < entries.len() ==> !name_before(
            (#[trigger] entries[j]).0@,
            (#[trigger] entries[i]).0@,
        )
}

/// Named texts, one to a name.
pub struct Metadata {
    entries: Vec<(String, String)>,
}

impl View for Metadata {
    type V = Map<Seq<char>, Seq<char>>;

    closed spec fn view(&self) -> Map<Seq<char>, Seq<char>> {
        entries_map(self.entries@)
    }
}

/// A name is in the map exactly if it is listed, and a name that is listed
/// once has the text listed with it.
proof fn lemma_entries_map(entries: Seq<(String, String)>, name: Seq<char>)
    ensures
        entries_map(entries).dom().contains(name) <==> exists|i: int|
            0 <= i < entries.len() && #[trigger] entries[i].0@ == name,
        forall|i: int|
            #![trigger entries[i]]
            distinct_names(entries) && 0 <= i < entries.len() && entries[i].0@ == name
                ==> entries_map(entries)[name] == entries[i].1@,
    decreases entries.len(),
{
    if entries.len() > 0 {
        let rest = entries.drop_last();
        lemma_entries_map(rest, name);
        if entries.last().0@ == name {
            assert(entries[entries.len() - 1].0@ == name);
        } else if entries_map(rest).dom().contains(name) {
            let i = choose|i: int| 0 <= i < rest.len() && #[trigger] rest[i].0@ == name;
            assert(entries[i].0@ == name);
        }
        if exists|i: int| 0 <= i < entries.len() && #[trigger] entries[i].0@ == name {
            let i = choose|i: int| 0 <= i < entries.len() && #[trigger] entries[i].0@ == name;
            if i < entries.len() - 1 {
                assert(rest[i].0@ == name);
            }
        }
        assert forall|i: int|
            #![trigger entries[i]]
            distinct_names(entries) && 0 <= i < entries.len() && entries[i].0@ == name implies entries_map(
            entries,
        )[name] == entries[i].1@ by {
            if i < entries.len() - 1 {
                assert(rest[i] == entries[i]);
                assert(entries[i].0@ != entries[entries.len() - 1].0@);
                assert(distinct_names(rest)) by {
                    assert forall|a: int, b: int| 0 <= a < b < rest.len() implies rest[a].0@
                        != rest[b].0@ by {
                        assert(rest[a] == entries[a] && rest[b] == entries[b]);
                    }
                }
            }
        }
    }
}

/// Putting another text in the place of a name that is listed once is the
/// map's own `insert`.
proof fn lemma_replace(entries: Seq<(String, String)>, at: int, entry: (String, String))
    requires
        0 <= at < entries.len(),
        distinct_names(entries),
        entries[at].0@ == entry.0@,
    ensures
        distinct_names(entries.update(at, entry)),
        entries_map(entries.update(at, entry)) == entries_map(entries).insert(entry.0@, entry.1@),
    decreases entries.len(),
{
    let changed = entries.update(at, entry);
    assert forall|i: int, j: int| 0 <= i < j < changed.len() implies changed[i].0@
        != changed[j].0@ by {
        assert(entries[i].0@ != entries[j].0@);
    }
    let rest = entries.drop_last();
    if at == entries.len() - 1 {
        assert(changed.drop_last() =~= rest);
        assert(entries_map(changed) =~= entries_map(entries).insert(entry.0@, entry.1@));
    } else {
        assert(distinct_names(rest)) by {
            assert forall|a: int, b: int| 0 <= a < b < rest.len() implies rest[a].0@ != rest[b].0@ by {
                assert(rest[a] == entries[a] && rest[b] == entries[b]);
            }
        }
        lemma_replace(rest, at, entry);
        assert(changed.drop_last() =~= rest.update(at, entry));
        assert(changed.last() == entries.last());
        assert(entries.last().0@ != entry.0@) by {
            assert(entries[at].0@ != entries[entries.len() - 1].0@);
        }
        assert(entries_map(changed) =~= entries_map(entries).insert(entry.0@, entry.1@));
    }
}

/// Listing a new name anywhere is the map's own `insert`.
proof fn lemma_insert_anywhere(entries: Seq<(String, String)>, at: int, entry: (String, String))
    requires
        0 <= at <= entries.len(),
        distinct_names(entries),
        forall|i: int| 0 <= i < entries.len() ==> (#[trigger] entries[i]).0@ != entry.0@,
    ensures
        distinct_names(entries.insert(at, entry)),
        entries_map(entries.insert(at, entry)) == entries_map(entries).insert(entry.0@, entry.1@),
    decreases entries.len(),
{
    let longer = entries.insert(at, entry);
    assert forall|i: int, j: int| 0 <= i < j < longer.len() implies longer[i].0@
        != longer[j].0@ by {
        let before_i = if i < at {
            i
        } else {
            i - 1
        };
        let before_j = if j < at {
            j
        } else {
            j - 1
        };
        if i != at && j != at {
            assert(entries[before_i].0@ != entries[before_j].0@);
        } else if i == at {
            assert(entries[before_j].0@ != entry.0@);
        } else {
            assert(entries[before_i].0@ != entry.0@);
        }
    }
    if at == entries.len() {
        assert(longer.drop_last() =~= entries);
    } else {
        let rest = entries.drop_last();
        assert(distinct_names(rest)) by {
            assert forall|a: int, b: int| 0 <= a < b < rest.len() implies rest[a].0@ != rest[b].0@ by {
                assert(rest[a] == entries[a] && rest[b] == entries[b]);
            }
        }
        assert forall|i: int| 0 <= i < rest.len() implies (#[trigger] rest[i]).0@ != entry.0@ by {
            assert(rest[i] == entries[i]);
        }
        lemma_insert_anywhere(rest, at, entry);
        assert(longer.drop_last() =~= rest.insert(at, entry));
        assert(longer.last() == entries.last());
        assert(entries[entries.len() - 1].0@ != entry.0@);
        assert(entries_map(longer) =~= entries_map(entries).insert(entry.0@, entry.1@));
    }
}

impl Metadata {
    #[verifier::type_invariant]
    spec fn one_text_to_a_name(self) -> bool {
        distinct_names(self.entries@)
    }

    /// No names and no texts.
    pub fn new() -> (metadata: Metadata)
        ensures
            metadata@ == Map::<Seq<char>, Seq<char>>::empty(),
    {
        Metadata { entries: Vec::new() }
    }

    /// Gives `name` the text `text`, in the place of the one it had if it had
    /// one.
    pub fn insert(&mut self, name: String, text: String)
        ensures
            final(self)@ == old(self)@.insert(name@, text@),
    {
        proof {
            use_type_invariant(&*self);
        }
        let mut entries: Vec<(String, String)> = Vec::new();
        std::mem::swap(&mut entries, &mut self.entries);
        let ghost before = entries@;
        let found = Metadata::position_in(&entries, &name);
        match found {
            Some(at) => {
                proof {
                    lemma_replace(before, at as int, (name, text));
                }
                entries.set(at, (name, text));
            },
            None => {
                proof {
                    assert(before.push((name, text)).drop_last() =~= before);
                }
                entries.push((name, text));
            },
        }
        self.entries = entries;
    }

    /// Where `name` is listed in `entries`.
    fn position_in(entries: &Vec<(String, String)>, name: &String) -> (at: Option<usize>)
        ensures
            at matches Some(i) ==> i < entries@.len() && entries@[i as int].0@ == name@,
            at is None ==> forall|i: int|
                0 <= i < entries@.len() ==> (#[trigger] entries@[i]).0@ != name@,
    {
        let mut i: usize = 0;
        while i < entries.len()
            invariant
                i <= entries@.len(),
                forall|j: int| 0 <= j < i ==> (#[trigger] entries@[j]).0@ != name@,
            decreases entries@.len() - i,
        {
            if entries[i].0 == *name {
                return Some(i);
            }
            i = i + 1;
        }
        None
    }

    /// The text that `name` has, if it has one.
    pub fn get(&self, name: &str) -> (text: Option<&String>)
        ensures
            text is Some <==> self@.dom().contains(name@),
            text matches Some(t) ==> t@ == self@[name@],
    {
        proof {
            use_type_invariant(self);
            lemma_entries_map(self.entries@, name@);
        }
        let wanted = String::from_str(name);
        match Metadata::position_in(&self.entries, &wanted) {
            Some(at) => Some(&self.entries[at].1),
            None => None,
        }
    }

    /// Gives every name of `other` the text that it has there.
    pub fn extend(&mut self, other: &Metadata)
        ensures
            final(self)@ == old(self)@.union_prefer_right(other@),
    {
        let ghost start = self@;
        let mut i: usize = 0;
        assert(self@ =~= start.union_prefer_right(entries_map(other.entries@.take(0))));
        while i < other.entries.len()
            invariant
                i <= other.entries@.len(),
                self@ == start.union_prefer_right(entries_map(other.entries@.take(i as int))),
            decreases other.entries@.len() - i,
        {
            let name = other.entries[i].0.clone();
            let text = other.entries[i].1.clone();
            proof {
                let taken = other.entries@.take(i + 1);
                assert(taken.drop_last() =~= other.entries@.take(i as int));
                assert(taken.last() == other.entries@[i as int]);
                assert(start.union_prefer_right(entries_map(other.entries@.take(i as int))).insert(
                    name@,
                    text@,
                ) =~= start.union_prefer_right(entries_map(taken)));
            }
            self.insert(name, text);
            i = i + 1;
        }
        assert(other.entries@.take(i as int) =~= other.entries@);
    }

    /// The names and their texts, each name once, in the order of the names.
    pub fn sorted_entries(&self) -> (sorted: Vec<(String, String)>)
        ensures
            entries_map(sorted@) == self@,
            distinct_names(sorted@),
            sorted_by_name(sorted@),
    {
        proof {
            use_type_invariant(self);
        }
        let mut sorted: Vec<(String, String)> = Vec::new();
        let mut i: usize = 0;
        while i < self.entries.len()
            invariant
                i <= self.entries@.len(),
                distinct_names(self.entries@),
                distinct_names(sorted@),
                sorted_by_name(sorted@),
                entries_map(sorted@) == entries_map(self.entries@.take(i as int)),
            decreases self.entries@.len() - i,
        {
            let name = self.entries[i].0.clone();
            let text = self.entries[i].1.clone();
            let mut at: usize = 0;
            while at < sorted.len() && !comes_before(name.as_str(), sorted[at].0.as_str())
                invariant
                    at <= sorted@.len(),
                    forall|k: int| 0 <= k < at ==> !name_before(name@, (#[trigger] sorted@[k]).0@),
                decreases sorted@.len() - at,
            {
                at = at + 1;
            }
            proof {
                let taken = self.entries@.take(i as int);
                let entry = (name, text);
                lemma_entries_map(taken, name@);
                lemma_entries_map(sorted@, name@);
                assert forall|k: int| 0 <= k < taken.len() implies (#[trigger] taken[k]).0@
                    != name@ by {
                    assert(self.entries@[k].0@ != self.entries@[i as int].0@);
                }
                lemma_insert_anywhere(sorted@, at as int, entry);
                let longer = sorted@.insert(at as int, entry);
                assert forall|a: int, b: int| 0 <= a < b < longer.len() implies !name_before(
                    (#[trigger] longer[b]).0@,
                    (#[trigger] longer[a]).0@,
                ) by {
                    if b == at {
                        assert(longer[a] == sorted@[a]);
                    } else if a == at {
                        assert(longer[b] == sorted@[b - 1]);
                        lemma_names_are_ordered(name@, sorted@[at as int].0@, name@);
                        lemma_names_are_ordered(sorted@[b - 1].0@, name@, sorted@[at as int].0@);
                    } else {
                        let before_a = if a < at {
                            a
                        } else {
                            a - 1
                        };
                        let before_b = if b < at {
                            b
                        } else {
                            b - 1
                        };
                        assert(longer[a] == sorted@[before_a]);
                        assert(longer[b] == sorted@[before_b]);
                    }
                }
                let next = self.entries@.take(i + 1);
                assert(next.drop_last() =~= taken);
                assert(next.last() == self.entries@[i as int]);
            }
            sorted.insert(at, (name, text));
            i = i + 1;
        }
        assert(self.entries@.take(i as int) =~= self.entries@);
        sorted
    }

    /// The names and their texts, each name once.
    pub fn entries(&self) -> (entries: &Vec<(String, String)>)
        ensures
            entries_map(entries@) == self@,
            distinct_names(entries@),
    {
        proof {
            use_type_invariant(self);
        }
        &self.entries
    }
}

/// What a map tells once the video's own entries are put into it: the stored
/// size under `Dimensions`; where frames are stretched for square pixels, the
/// size at which they are shown under `Display Dimensions` and the shape of a
/// pixel under `Pixel Aspect Ratio`; and the duration under `Duration`.
pub open spec fn with_video_entries(
    before: Map<Seq<char>, Seq<char>>,
    geometry: StreamGeometry,
    duration: StreamDuration,
) -> Map<Seq<char>, Seq<char>> {
    let sized = before.insert(
        "Dimensions"@,
        pair_text(geometry.width as nat, 'x', geometry.height as nat),
    );
    let shown = geometry.output_size();
    let ratio = geometry.pixel_aspect_ratio->0;
    let shaped = if geometry.corrects() {
        sized.insert("Display Dimensions"@, pair_text(shown.0 as nat, 'x', shown.1 as nat)).insert(
            "Pixel Aspect Ratio"@,
            pair_text(ratio.0 as nat, ':', ratio.1 as nat),
        )
    } else {
        sized
    };
    shaped.insert("Duration"@, duration_text(duration.whole_seconds_spec() as nat))
}

/// Puts the video's own entries into `metadata`.
pub fn describe_video(metadata: &mut Metadata, geometry: &StreamGeometry, duration: &StreamDuration)
    ensures
        final(metadata)@ == with_video_entries(old(metadata)@, *geometry, *duration),
{
    metadata.insert(
        String::from_str("Dimensions"),
        format_dimensions(geometry.width, geometry.height),
    );
    match geometry.pixel_aspect_ratio {
        Some(ratio) => {
            if geometry.has_correction() {
                let shown = geometry.output_dimensions();
                metadata.insert(
                    String::from_str("Display Dimensions"),
                    format_dimensions(shown.0, shown.1),
                );
                metadata.insert(
                    String::from_str("Pixel Aspect Ratio"),
                    format_ratio(ratio.0, ratio.1),
                );
            }
        },
        None => {},
    }
    metadata.insert(String::from_str("Duration"), format_duration(duration.whole_seconds()));
}

/// What `humansize::format_size` makes of a number of bytes with the options
/// `humansize::BINARY`: the size in the largest unit of 1024 that it fills,
/// as in `1.50 KiB`.
pub uninterp spec fn binary_size_text(bytes: u64) -> Seq<char>;

/// Calls `humansize::format_size` with `humansize::BINARY`. The text depends
/// on the number alone; the contract gives it its name and says no more of
/// it.
#[verifier::external_body]
fn format_binary_size(bytes: u64) -> (text: String)
    ensures
        text@ == binary_size_text(bytes),
{
    humansize::format_size(bytes, humansize::BINARY)
}

/// What `str::to_uppercase` makes of a text: each character in upper case,
/// by the rules of Unicode.
pub uninterp spec fn uppercase_text(text: Seq<char>) -> Seq<char>;

/// Calls `str::to_uppercase`. The text depends on the argument alone; the
/// contract gives it its name and says no more of it.
#[verifier::external_body]
fn uppercase(text: &str) -> (upper: String)
    ensures
        upper@ == uppercase_text(text@),
{
    text.to_uppercase()
}

/// What a map tells once the file's entries are put into it: the size under
/// `File Size` where it is known, and the extension in upper case under
/// `File Type` where there is one.
pub open spec fn with_file_entries(
    before: Map<Seq<char>, Seq<char>>,
    size: Option<u64>,
    extension: Option<Seq<char>>,
) -> Map<Seq<char>, Seq<char>> {
    let sized = match size {
        Some(bytes) => before.insert("File Size"@, binary_size_text(bytes)),
        None => before,
    };
    match extension {
        Some(text) => sized.insert("File Type"@, uppercase_text(text)),
        None => sized,
    }
}

/// Puts the file's entries into `metadata`.
pub fn describe_file(metadata: &mut Metadata, size: Option<u64>, extension: Option<&str>)
    ensures
        final(metadata)@ == with_file_entries(
            old(metadata)@,
            size,
            match extension {
                Some(text) => Some(text@),
                None => None,
            },
        ),
{
    match size {
        Some(bytes) => {
            metadata.insert(String::from_str("File Size"), format_binary_size(bytes));
        },
        None => {},
    }
    match extension {
        Some(text) => {
            metadata.insert(String::from_str("File Type"), uppercase(text));
        },
        None => {},
    }
}

} // verus!
