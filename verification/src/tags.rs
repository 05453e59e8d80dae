//! Tag dictionaries and the field resolver: a tag is a list of
//! (key, value) bindings plus embedded pictures; a metadata template names,
//! per semantic field, the candidate keys to try in order, and resolution
//! returns the value of the first candidate key bound to a non-empty value.

use vstd::prelude::*;
use crate::strutil::str_eq;

verus! {

/// One picture embedded in a tag.
#[derive(Clone, Debug)]
pub struct Picture {
    /// Whether the tag marks this picture as the front cover.
    pub is_front_cover: bool,
    /// The declared MIME type, e.g. `image/jpeg`.
    pub mime: String,
    /// The raw image bytes.
    pub data: Vec<u8>,
}

/// A generic tag dictionary extracted from one audio file.
#[derive(Clone, Debug)]
pub struct TagDict {
    /// Key-value bindings, in tag order.
    pub entries: Vec<(String, String)>,
    /// Embedded pictures, in tag order.
    pub pictures: Vec<Picture>,
}

/// The value bound to `key`: the first binding with that key.
pub open spec fn lookup(entries: Seq<(Seq<char>, Seq<char>)>, key: Seq<char>) -> Option<Seq<char>>
    decreases entries.len(),
{
    if entries.len() == 0 {
        None
    } else if entries.first().0 == key {
        Some(entries.first().1)
    } else {
        lookup(entries.drop_first(), key)
    }
}

/// The value bound to `key`, or the empty string where none is.
pub open spec fn lookup_or_empty(entries: Seq<(Seq<char>, Seq<char>)>, key: Seq<char>) -> Seq<
    char,
> {
    match lookup(entries, key) {
        Some(v) => v,
        None => Seq::empty(),
    }
}

/// First-match field resolution: the value of the first candidate key that
/// is bound and non-empty; `None` when no candidate is.
pub open spec fn resolve_field(
    entries: Seq<(Seq<char>, Seq<char>)>,
    keys: Seq<Seq<char>>,
) -> Option<Seq<char>>
    decreases keys.len(),
{
    if keys.len() == 0 {
        None
    } else {
        let r = lookup(entries, keys.first());
        if r is Some && r->0.len() > 0 {
            r
        } else {
            resolve_field(entries, keys.drop_first())
        }
    }
}

/// The index of the first picture marked as front cover.
pub open spec fn first_front_cover_idx(pics: Seq<Picture>) -> Option<int>
    decreases pics.len(),
{
    if pics.len() == 0 {
        None
    } else if pics.first().is_front_cover {
        Some(0)
    } else {
        match first_front_cover_idx(pics.drop_first()) {
            Some(i) => Some(i + 1),
            None => None,
        }
    }
}

impl TagDict {
    /// The value bound to `key` in this dictionary, if any.
    pub fn get(&self, key: &str) -> (r: Option<String>)
        ensures
            r.deep_view() == lookup(self.entries.deep_view(), key@),
    {
        let ghost entries = self.entries.deep_view();
        proof {
            assert(entries.skip(0) =~= entries);
        }
        let mut i: usize = 0;
        while i < self.entries.len()
            invariant
                i <= self.entries.len(),
                entries == self.entries.deep_view(),
                lookup(entries, key@) == lookup(entries.skip(i as int), key@),
            decreases self.entries.len() - i,
        {
            proof {
                assert(entries.skip(i as int).first() == entries[i as int]);
                assert(entries.skip(i as int).drop_first() =~= entries.skip(i + 1 as int));
            }
            if str_eq(self.entries[i].0.as_str(), key) {
                return Some(self.entries[i].1.clone());
            }
            i += 1;
        }
        proof {
            assert(entries.skip(entries.len() as int) =~= Seq::<(Seq<char>, Seq<char>)>::empty());
        }
        None
    }

    /// The value bound to `key`, or the empty string where none is.
    pub fn get_or_empty(&self, key: &str) -> (r: String)
        ensures
            r@ == lookup_or_empty(self.entries.deep_view(), key@),
    {
        match self.get(key) {
            Some(v) => v,
            None => String::new(),
        }
    }

    /// The first picture marked as front cover, if any.
    pub fn front_cover(&self) -> (r: Option<&Picture>)
        ensures
            match r {
                Some(p) => {
                    &&& first_front_cover_idx(self.pictures@) is Some
                    &&& *p == self.pictures@[first_front_cover_idx(self.pictures@)->0]
                    &&& p.is_front_cover
                },
                None => first_front_cover_idx(self.pictures@) is None,
            },
    {
        let ghost pics = self.pictures@;
        proof {
            assert(pics.skip(0) =~= pics);
        }
        let mut i: usize = 0;
        while i < self.pictures.len()
            invariant
                i <= pics.len(),
                pics == self.pictures@,
                first_front_cover_idx(pics) == match first_front_cover_idx(pics.skip(i as int)) {
                    Some(j) => Some(j + i),
                    None => None::<int>,
                },
            decreases pics.len() - i,
        {
            proof {
                assert(pics.skip(i as int).first() == pics[i as int]);
                assert(pics.skip(i as int).drop_first() =~= pics.skip(i + 1 as int));
            }
            if self.pictures[i].is_front_cover {
                return Some(&self.pictures[i]);
            }
            i += 1;
        }
        proof {
            assert(pics.skip(pics.len() as int) =~= Seq::<Picture>::empty());
        }
        None
    }
}

/// Resolves one semantic field: the value of the first candidate key in
/// `keys` that is bound and non-empty in `tag`, in template order.
pub fn get_tag_with_fallback(tag: &TagDict, keys: &Vec<String>) -> (r: Option<String>)
    ensures
        r.deep_view() == resolve_field(tag.entries.deep_view(), keys.deep_view()),
{
    let ghost entries = tag.entries.deep_view();
    let ghost ks = keys.deep_view();
    proof {
        assert(ks.skip(0) =~= ks);
    }
    let mut i: usize = 0;
    while i < keys.len()
        invariant
            i <= keys.len(),
            entries == tag.entries.deep_view(),
            ks == keys.deep_view(),
            resolve_field(entries, ks) == resolve_field(entries, ks.skip(i as int)),
        decreases keys.len() - i,
    {
        proof {
            assert(ks.skip(i as int).first() == ks[i as int]);
            assert(ks.skip(i as int).drop_first() =~= ks.skip(i + 1 as int));
        }
        match tag.get(keys[i].as_str()) {
            Some(v) => {
                if !v.as_str().is_empty() {
                    return Some(v);
                }
            },
            None => {},
        }
        i += 1;
    }
    proof {
        assert(ks.skip(ks.len() as int) =~= Seq::<Seq<char>>::empty());
    }
    None
}

/// An ordered list of candidate tag keys per semantic field.
pub struct MetadataTemplate {
    /// Candidate keys for the author field, in fallback order.
    pub author: Vec<String>,
    /// Candidate keys for the album-title field, in fallback order.
    pub title: Vec<String>,
}

impl core::default::Default for MetadataTemplate {
    /// The stock template: prefer the track artist, then the original
    /// artist, then the album artist; and the album title, then the
    /// original album title, then the track title.
    fn default() -> (r: Self)
        ensures
            r.author.deep_view() == seq!["TrackArtist"@, "OriginalArtist"@, "AlbumArtist"@],
            r.title.deep_view() == seq!["AlbumTitle"@, "OriginalAlbumTitle"@, "TrackTitle"@],
    {
        let mut author: Vec<String> = Vec::new();
        author.push("TrackArtist".to_owned());
        author.push("OriginalArtist".to_owned());
        author.push("AlbumArtist".to_owned());
        let mut title: Vec<String> = Vec::new();
        title.push("AlbumTitle".to_owned());
        title.push("OriginalAlbumTitle".to_owned());
        title.push("TrackTitle".to_owned());
        proof {
            assert(author.deep_view() =~= seq!["TrackArtist"@, "OriginalArtist"@, "AlbumArtist"@]);
            assert(title.deep_view() =~= seq![
                "AlbumTitle"@,
                "OriginalAlbumTitle"@,
                "TrackTitle"@,
            ]);
        }
        MetadataTemplate { author, title }
    }
}

} // verus!
