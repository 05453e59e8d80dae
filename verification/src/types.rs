//! Domain records: works, chapters, per-track metadata, settings, and the
//! error types of the scan and persistence boundary.

use vstd::prelude::*;

verus! {

/// One logical book or album, composed of one or more files.
#[derive(Clone, Debug, Default)]
pub struct Work {
    /// Persistence id; empty until the store assigns one.
    pub id: String,
    /// The album / book title.
    pub name: String,
    /// The stable author id this work belongs to.
    pub author: String,
    /// The series the work belongs to, if any. Never `Some("")`.
    pub series: Option<String>,
    /// The directory the work was found in.
    pub path: String,
    /// Every file attributed to the work, in discovery order.
    pub files: Vec<String>,
    /// The files that classify as images.
    pub image_files: Vec<String>,
    /// The files that classify as audio.
    pub audio_files: Vec<String>,
}

/// The mathematical model of a `Work`.
pub struct WorkView {
    pub id: Seq<char>,
    pub name: Seq<char>,
    pub author: Seq<char>,
    pub series: Option<Seq<char>>,
    pub path: Seq<char>,
    pub files: Seq<Seq<char>>,
    pub image_files: Seq<Seq<char>>,
    pub audio_files: Seq<Seq<char>>,
}

impl View for Work {
    type V = WorkView;

    open spec fn view(&self) -> WorkView {
        WorkView {
            id: self.id@,
            name: self.name@,
            author: self.author@,
            series: self.series.deep_view(),
            path: self.path@,
            files: self.files.deep_view(),
            image_files: self.image_files.deep_view(),
            audio_files: self.audio_files.deep_view(),
        }
    }
}

/// One chapter of a track: a title and a length in milliseconds.
#[derive(Clone, Debug)]
pub struct Chapter {
    pub title: String,
    pub length_ms: u64,
}

/// The mathematical model of a `Chapter`.
pub struct ChapterView {
    pub title: Seq<char>,
    pub length_ms: u64,
}

impl View for Chapter {
    type V = ChapterView;

    open spec fn view(&self) -> ChapterView {
        ChapterView { title: self.title@, length_ms: self.length_ms }
    }
}

/// Playback metadata of one audio file, independent of work aggregation.
#[derive(Clone, Debug)]
pub struct TrackMetadata {
    pub path: String,
    pub track_title: String,
    pub track_author: String,
    pub album_title: String,
    /// Total duration in milliseconds.
    pub duration_ms: u64,
    /// Ordered chapters; their nominal starts are the running sums of the
    /// preceding lengths.
    pub chapters: Vec<Chapter>,
}

/// Reading a stored record of a work failed.
#[derive(Clone, Debug)]
pub struct ReadWorkDataError {}

/// Storing a playback position failed.
#[derive(Clone, Debug)]
pub struct AddWorkTimeError;

/// Clearing a persistence table failed.
#[derive(Clone, Debug)]
pub struct ClearDatabaseError;

/// Loading the stored works failed.
#[derive(Clone, Debug)]
pub struct LoadWorksError;

/// Reading a file's metadata failed: the file was unreadable, carried no
/// primary tag, or its chapter structure was malformed.
#[derive(Clone, Debug)]
pub struct ReadFileMetadataError {}

/// How the library is organised on disk.
#[derive(Clone, Copy, Debug, PartialEq, Eq, Structural)]
pub enum LibraryStyle {
    /// Works are inferred from the directory structure.
    Folder,
    /// Works are inferred from embedded tags.
    Metadata,
}

/// Immutable inputs of one scan run.
#[derive(Clone, Debug)]
pub struct Settings {
    pub library_location: String,
    pub library_style: LibraryStyle,
}

} // verus!
