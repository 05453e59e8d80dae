//! Container chapter derivation: from the sample table of a chapter
//! track and the file's total duration, derive the ordered chapter list.
//! A sample with a declared duration keeps it; a sample with a zero
//! declared duration — the final chapter, whose length is implicit —
//! gets the remainder of the file from its start time.

use vstd::prelude::*;
use crate::ids::{dec_str, u64_to_string};
use crate::tags::{lookup_or_empty, TagDict};
use crate::types::{Chapter, TrackMetadata};
use vstd::string::StringExecFns;

verus! {

/// One sample of a chapter track: its start time and declared duration,
/// both in milliseconds.
#[derive(Clone, Copy, Debug, PartialEq, Eq, Structural)]
pub struct SampleInfo {
    pub start_ms: u64,
    pub duration_ms: u32,
}

/// One track of a chapter-capable container, reduced to what the chapter
/// heuristic reads.
#[derive(Clone, Copy, Debug, PartialEq, Eq, Structural)]
pub struct TrackInfo {
    /// The container's id for this track.
    pub track_id: u32,
    /// Whether the track's declared media type resolves to a standard
    /// audio or video type.
    pub media_type_ok: bool,
    /// How many samples the track holds.
    pub sample_count: u32,
}

/// The length of the chapter a sample stands for: its declared duration,
/// or the remainder of the file when the declaration is zero. A start
/// time past the end of the file yields an empty chapter.
pub open spec fn chapter_length_ms(total_ms: u64, s: SampleInfo) -> u64 {
    if s.duration_ms == 0 {
        if s.start_ms <= total_ms {
            (total_ms - s.start_ms) as u64
        } else {
            0
        }
    } else {
        s.duration_ms as u64
    }
}

/// The generated title of chapter `i` (0-indexed).
pub open spec fn chapter_title_of(i: nat) -> Seq<char> {
    "Chapter "@ + dec_str(i)
}

/// The sum of the chapter lengths derived from `samples`.
pub open spec fn sum_lengths(total_ms: u64, samples: Seq<SampleInfo>) -> int
    decreases samples.len(),
{
    if samples.len() == 0 {
        0
    } else {
        sum_lengths(total_ms, samples.drop_last()) + chapter_length_ms(total_ms, samples.last())
    }
}

/// The sum of the declared durations of `samples`.
pub open spec fn sum_durations(samples: Seq<SampleInfo>) -> int
    decreases samples.len(),
{
    if samples.len() == 0 {
        0
    } else {
        sum_durations(samples.drop_last()) + samples.last().duration_ms
    }
}

/// The generated title of chapter `i`.
pub fn chapter_title(i: u64) -> (r: String)
    ensures
        r@ == chapter_title_of(i as nat),
{
    let mut s: String = "Chapter ".to_owned();
    let digits = u64_to_string(i);
    s.append(digits.as_str());
    s
}

/// Derives the ordered chapter list of a chapter track: one chapter per
/// sample, in sample order, titled "Chapter N".
pub fn derive_chapters(total_ms: u64, samples: &Vec<SampleInfo>) -> (r: Vec<Chapter>)
    ensures
        r@.len() == samples@.len(),
        forall|i: int|
            0 <= i < r@.len() ==> (#[trigger] r@[i])@.title == chapter_title_of(i as nat)
                && r@[i]@.length_ms == chapter_length_ms(total_ms, samples@[i]),
{
    let mut r: Vec<Chapter> = Vec::new();
    let mut i: usize = 0;
    while i < samples.len()
        invariant
            i <= samples@.len(),
            r@.len() == i,
            forall|k: int|
                0 <= k < i ==> (#[trigger] r@[k])@.title == chapter_title_of(k as nat)
                    && r@[k]@.length_ms == chapter_length_ms(total_ms, samples@[k]),
        decreases samples@.len() - i,
    {
        let s = samples[i];
        let length_ms: u64 = if s.duration_ms == 0 {
            if s.start_ms <= total_ms {
                total_ms - s.start_ms
            } else {
                0
            }
        } else {
            s.duration_ms as u64
        };
        let title = chapter_title(i as u64);
        r.push(Chapter { title, length_ms });
        i += 1;
    }
    r
}

/// The first track whose media type does not resolve: the chapter-track
/// heuristic. Why a successfully-typed media track could not carry the
/// chapter markers is an open question inherited from the container
/// convention; the predicate is best-effort.
pub fn pick_chapter_track(tracks: &Vec<TrackInfo>) -> (r: Option<usize>)
    ensures
        match r {
            Some(i) => {
                &&& i < tracks@.len()
                &&& !tracks@[i as int].media_type_ok
                &&& forall|k: int| 0 <= k < i ==> tracks@[k].media_type_ok
            },
            None => forall|k: int| 0 <= k < tracks@.len() ==> tracks@[k].media_type_ok,
        },
{
    let mut i: usize = 0;
    while i < tracks.len()
        invariant
            i <= tracks@.len(),
            forall|k: int| 0 <= k < i ==> tracks@[k].media_type_ok,
        decreases tracks@.len() - i,
    {
        if !tracks[i].media_type_ok {
            return Some(i);
        }
        i += 1;
    }
    None
}

/// Assembles the playback metadata of one audio file from its tag, its
/// total duration, and — for chapter-capable containers — the sample
/// table of its chapter track. Without one, the file is a single
/// unchaptered track titled by its tag.
pub fn assemble_track_metadata(
    path: String,
    tag: &TagDict,
    duration_ms: u64,
    samples: Option<&Vec<SampleInfo>>,
) -> (m: TrackMetadata)
    ensures
        m.path@ == path@,
        m.duration_ms == duration_ms,
        m.track_title@ == lookup_or_empty(tag.entries.deep_view(), "TrackTitle"@),
        m.track_author@ == lookup_or_empty(tag.entries.deep_view(), "TrackArtist"@),
        m.album_title@ == lookup_or_empty(tag.entries.deep_view(), "AlbumTitle"@),
        match samples {
            Some(ss) => {
                &&& m.chapters@.len() == ss@.len()
                &&& forall|i: int|
                    0 <= i < ss@.len() ==> (#[trigger] m.chapters@[i])@.title == chapter_title_of(
                        i as nat,
                    ) && m.chapters@[i]@.length_ms == chapter_length_ms(duration_ms, ss@[i])
            },
            None => {
                &&& m.chapters@.len() == 1
                &&& m.chapters@[0]@.title == lookup_or_empty(tag.entries.deep_view(), "TrackTitle"@)
                &&& m.chapters@[0]@.length_ms == duration_ms
            },
        },
{
    let track_title = tag.get_or_empty("TrackTitle");
    let track_author = tag.get_or_empty("TrackArtist");
    let album_title = tag.get_or_empty("AlbumTitle");
    let chapters: Vec<Chapter> = match samples {
        Some(ss) => derive_chapters(duration_ms, ss),
        None => {
            let mut c: Vec<Chapter> = Vec::new();
            c.push(Chapter { title: track_title.clone(), length_ms: duration_ms });
            c
        },
    };
    TrackMetadata { path, track_title, track_author, album_title, duration_ms, chapters }
}

/// A proof that the sum of the derived chapter lengths of samples with
/// non-zero declared durations equals the sum of those durations.
proof fn lemma_sum_nonzero(total_ms: u64, samples: Seq<SampleInfo>)
    requires
        forall|i: int| 0 <= i < samples.len() ==> samples[i].duration_ms > 0,
    ensures
        sum_lengths(total_ms, samples) == sum_durations(samples),
    decreases samples.len(),
{
    if samples.len() > 0 {
        assert(forall|i: int|
            0 <= i < samples.drop_last().len() ==> samples.drop_last()[i] == samples[i]);
        lemma_sum_nonzero(total_ms, samples.drop_last());
    }
}

/// Chapter lengths sum to the file's total duration: when every
/// non-final sample declares a non-zero duration, the samples are
/// contiguous (each starts where the previous durations end), and the
/// final sample's length is implicit (declared zero, starting within the
/// file), the derived chapter lengths sum exactly to the total duration.
pub proof fn lemma_chapter_lengths_sum_to_total(total_ms: u64, samples: Seq<SampleInfo>)
    requires
        samples.len() >= 1,
        forall|i: int| 0 <= i < samples.len() - 1 ==> samples[i].duration_ms > 0,
        samples.last().duration_ms == 0,
        samples.last().start_ms <= total_ms,
        forall|i: int|
            0 <= i < samples.len() ==> samples[i].start_ms as int == sum_durations(
                #[trigger] samples.take(i),
            ),
    ensures
        sum_lengths(total_ms, samples) == total_ms,
{
    let pre = samples.drop_last();
    let n = samples.len() as int;
    assert(forall|i: int| 0 <= i < pre.len() ==> pre[i] == samples[i]);
    lemma_sum_nonzero(total_ms, pre);
    assert(samples.take(n - 1) =~= pre);
    assert(samples.last().start_ms as int == sum_durations(pre));
    assert(chapter_length_ms(total_ms, samples.last()) == total_ms - samples.last().start_ms);
}

} // verus!
