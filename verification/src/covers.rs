//! Cover-art cache naming and policy: the cache file name is a pure
//! function of the album title and the picture's MIME type, and a file
//! already present in the cache is reused, never written again.

use vstd::prelude::*;
use crate::ids::{cover_stem_of, sanitize_album_title};
use crate::strutil::str_eq;
use vstd::string::StringExecFns;

verus! {

/// Whether the MIME type is one this library maps to an extension.
pub open spec fn mime_known(mime: Seq<char>) -> bool {
    mime == "image/jpeg"@ || mime == "image/png"@ || mime == "image/gif"@ || mime == "image/bmp"@
}

/// The file extension chosen for a picture's MIME type. An unknown type
/// deliberately falls back to `jpg`, a lossy default the caller may warn
/// about.
pub open spec fn ext_for_mime(mime: Seq<char>) -> Seq<char> {
    if mime == "image/jpeg"@ {
        "jpg"@
    } else if mime == "image/png"@ {
        "png"@
    } else if mime == "image/gif"@ {
        "gif"@
    } else if mime == "image/bmp"@ {
        "bmp"@
    } else {
        "jpg"@
    }
}

/// Maps a MIME type to a cache file extension; the flag says whether the
/// type was recognised or the `jpg` fallback was taken.
pub fn mime_to_extension(mime: &str) -> (r: (String, bool))
    ensures
        r.0@ == ext_for_mime(mime@),
        r.1 == mime_known(mime@),
{
    if str_eq(mime, "image/jpeg") {
        ("jpg".to_owned(), true)
    } else if str_eq(mime, "image/png") {
        ("png".to_owned(), true)
    } else if str_eq(mime, "image/gif") {
        ("gif".to_owned(), true)
    } else if str_eq(mime, "image/bmp") {
        ("bmp".to_owned(), true)
    } else {
        ("jpg".to_owned(), false)
    }
}

/// The cache file name of an album's cover: the sanitized title stem, a
/// dot, and the extension chosen for the MIME type.
pub open spec fn cover_file_name_of(title: Seq<char>, mime: Seq<char>) -> Seq<char> {
    cover_stem_of(title) + seq!['.'] + ext_for_mime(mime)
}

/// Computes the cover-cache file name of an album title and MIME type.
pub fn cover_file_name(album_title: &str, mime: &str) -> (r: String)
    ensures
        r@ == cover_file_name_of(album_title@, mime@),
{
    let mut stem = sanitize_album_title(album_title);
    stem.push('.');
    let (ext, _) = mime_to_extension(mime);
    stem.append(ext.as_str());
    proof {
        assert(stem@ =~= cover_file_name_of(album_title@, mime@));
    }
    stem
}

/// What the cache does with a cover file.
#[derive(Clone, Copy, Debug, PartialEq, Eq, Structural)]
pub enum CoverAction {
    /// The file already exists: reuse it, write nothing.
    Reuse,
    /// The file is absent: create it and write the image bytes.
    Write,
}

/// Decides the cache step from whether the cache file already exists: an
/// existing file is reused and only a missing one is written.
pub fn decide_cover_action(exists: bool) -> (r: CoverAction)
    ensures
        r == (if exists {
            CoverAction::Reuse
        } else {
            CoverAction::Write
        }),
{
    if exists {
        CoverAction::Reuse
    } else {
        CoverAction::Write
    }
}

/// One cache step over an abstract cache state (the set of file names
/// present): the name is computed from title and MIME type, a present
/// name is kept as is, an absent one is added; the flag says whether a
/// write happened.
pub open spec fn cache_step(on_disk: Set<Seq<char>>, title: Seq<char>, mime: Seq<char>) -> (
    Set<Seq<char>>,
    bool,
) {
    let name = cover_file_name_of(title, mime);
    if on_disk.contains(name) {
        (on_disk, false)
    } else {
        (on_disk.insert(name), true)
    }
}

/// Cover-art caching is idempotent: a second cache step for the same
/// album title and MIME type writes nothing and leaves the cache exactly
/// as the first step left it — one file, one write.
pub proof fn lemma_cover_cache_idempotent(
    on_disk: Set<Seq<char>>,
    title: Seq<char>,
    mime: Seq<char>,
)
    ensures
        ({
            let (d1, w1) = cache_step(on_disk, title, mime);
            let (d2, w2) = cache_step(d1, title, mime);
            &&& d2 == d1
            &&& !w2
        }),
{
}

} // verus!
