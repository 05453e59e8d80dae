//! Extension classifier: maps a path to a semantic class (audio,
//! chapter-capable audio, image) purely by its file extension,
//! case-insensitively. A path with no extension classifies as none.

use vstd::prelude::*;

verus! {

/// Path separators recognised when isolating the file name.
pub open spec fn is_sep(c: char) -> bool {
    c == '/' || c == '\\'
}

/// The final path component: the suffix after the last separator.
pub open spec fn file_name_of(p: Seq<char>) -> Seq<char>
    decreases p.len(),
{
    if p.len() == 0 {
        p
    } else if is_sep(p.last()) {
        Seq::empty()
    } else {
        file_name_of(p.drop_last()).push(p.last())
    }
}

/// The extension of a file name: the suffix after the last `.`, provided
/// that dot is not the leading character. A name without a dot, or whose
/// only dot leads it, has no extension.
pub open spec fn ext_of_name(f: Seq<char>) -> Option<Seq<char>>
    decreases f.len(),
{
    if f.len() <= 1 {
        None
    } else if f.last() == '.' {
        Some(Seq::empty())
    } else {
        match ext_of_name(f.drop_last()) {
            Some(e) => Some(e.push(f.last())),
            None => None,
        }
    }
}

/// The extension of a path.
pub open spec fn ext_of(p: Seq<char>) -> Option<Seq<char>> {
    ext_of_name(file_name_of(p))
}

/// ASCII uppercase letters fold to lowercase; all else is unchanged.
pub open spec fn lower_char(c: char) -> char {
    if 'A' <= c && c <= 'Z' {
        ((c as u32) + 32) as char
    } else {
        c
    }
}

/// Character-wise ASCII lowercasing.
pub open spec fn lower(s: Seq<char>) -> Seq<char> {
    s.map_values(|c: char| lower_char(c))
}

/// The lowercased extension of a path, or `None` where it has none.
pub open spec fn ext_lower_of(p: Seq<char>) -> Option<Seq<char>> {
    match ext_of(p) {
        Some(e) => Some(lower(e)),
        None => None,
    }
}

/// Extensions of audio files this library handles.
pub open spec fn is_audio_ext(e: Seq<char>) -> bool {
    e == "mp4"@ || e == "mp3"@ || e == "m4a"@ || e == "m4b"@ || e == "wav"@
}

/// Extensions of audio containers that may carry an embedded chapter track.
pub open spec fn is_chapter_ext(e: Seq<char>) -> bool {
    e == "mp4"@ || e == "m4a"@ || e == "m4b"@
}

/// Extensions of image files this library handles.
pub open spec fn is_image_ext(e: Seq<char>) -> bool {
    e == "jpg"@ || e == "jpeg"@ || e == "png"@
}

/// A path classifies as audio when its lowercased extension is an audio one.
pub open spec fn classifies_audio(p: Seq<char>) -> bool {
    match ext_lower_of(p) {
        Some(e) => is_audio_ext(e),
        None => false,
    }
}

/// A path classifies as chapter-capable audio.
pub open spec fn classifies_chapter_audio(p: Seq<char>) -> bool {
    match ext_lower_of(p) {
        Some(e) => is_chapter_ext(e),
        None => false,
    }
}

/// A path classifies as an image.
pub open spec fn classifies_image(p: Seq<char>) -> bool {
    match ext_lower_of(p) {
        Some(e) => is_image_ext(e),
        None => false,
    }
}

/// The lowercased extension of `path` as a character vector.
fn ext_lower_chars(path: &str) -> (r: Option<Vec<char>>)
    ensures
        match r {
            Some(v) => ext_lower_of(path@) == Some(v@),
            None => ext_lower_of(path@) is None,
        },
{
    let cs = crate::strutil::chars_of(path);
    let n = cs.len();

    // Find the position one past the last separator: the file name start.
    let mut name_start: usize = 0;
    let mut i: usize = 0;
    while i < n
        invariant
            name_start <= i <= n,
            cs@ == path@,
            n == cs@.len(),
            file_name_of(cs@.subrange(0, i as int)) == cs@.subrange(name_start as int, i as int),
        decreases n - i,
    {
        let c = cs[i];
        proof {
            assert(cs@.subrange(0, i + 1 as int).drop_last() =~= cs@.subrange(0, i as int));
            assert(cs@.subrange(0, i + 1 as int).last() == c);
        }
        if c == '/' || c == '\\' {
            name_start = i + 1;
            proof {
                assert(cs@.subrange(name_start as int, i + 1 as int) =~= Seq::<char>::empty());
            }
        } else {
            proof {
                assert(cs@.subrange(name_start as int, i as int).push(c) =~= cs@.subrange(
                    name_start as int,
                    i + 1 as int,
                ));
            }
        }
        i += 1;
    }
    proof {
        assert(cs@.subrange(0, n as int) =~= cs@);
    }
    let ghost name = cs@.subrange(name_start as int, n as int);

    // Find the last dot strictly after the file name's first character.
    let mut dot: Option<usize> = None;
    let mut j: usize = name_start;
    while j < n
        invariant
            name_start <= j <= n,
            n == cs@.len(),
            name == cs@.subrange(name_start as int, n as int),
            match dot {
                Some(d) => {
                    &&& name_start < d < j
                    &&& cs@[d as int] == '.'
                    &&& ext_of_name(cs@.subrange(name_start as int, j as int)) == Some(
                        cs@.subrange(d + 1, j as int),
                    )
                },
                None => ext_of_name(cs@.subrange(name_start as int, j as int)) is None,
            },
        decreases n - j,
    {
        let c = cs[j];
        proof {
            assert(cs@.subrange(name_start as int, j + 1 as int).drop_last() =~= cs@.subrange(
                name_start as int,
                j as int,
            ));
            assert(cs@.subrange(name_start as int, j + 1 as int).last() == c);
        }
        if c == '.' && j > name_start {
            dot = Some(j);
            proof {
                assert(cs@.subrange(j + 1, j + 1 as int) =~= Seq::<char>::empty());
            }
        } else {
            proof {
                if let Some(d) = dot {
                    assert(cs@.subrange(d + 1, j as int).push(c) =~= cs@.subrange(d + 1, j + 1 as int));
                }
            }
        }
        j += 1;
    }

    match dot {
        None => None,
        Some(d) => {
            let mut out: Vec<char> = Vec::new();
            let mut k: usize = d + 1;
            while k < n
                invariant
                    d + 1 <= k <= n,
                    n == cs@.len(),
                    out@ == lower(cs@.subrange(d + 1, k as int)),
                decreases n - k,
            {
                let c = cs[k];
                let lc: char = if 'A' <= c && c <= 'Z' {
                    ((c as u8) + 32) as char
                } else {
                    c
                };
                out.push(lc);
                proof {
                    assert(cs@.subrange(d + 1, k + 1 as int).drop_last() =~= cs@.subrange(
                        d + 1,
                        k as int,
                    ));
                    assert(lower(cs@.subrange(d + 1, k + 1 as int)) =~= lower(
                        cs@.subrange(d + 1, k as int),
                    ).push(lower_char(c)));
                }
                k += 1;
            }
            Some(out)
        },
    }
}

/// Character-vector equality against a string slice.
fn chars_eq_str(v: &Vec<char>, s: &str) -> (r: bool)
    ensures
        r == (v@ == s@),
{
    let n = s.unicode_len();
    if v.len() != n {
        return false;
    }
    let mut i: usize = 0;
    while i < n
        invariant
            i <= n,
            n == s@.len(),
            v@.len() == n,
            forall|k: int| 0 <= k < i ==> v@[k] == s@[k],
        decreases n - i,
    {
        if v[i] != s.get_char(i) {
            return false;
        }
        i += 1;
    }
    proof {
        assert(v@ =~= s@);
    }
    true
}

/// Whether `path` classifies as an audio file.
pub fn is_audio_path(path: &str) -> (r: bool)
    ensures
        r == classifies_audio(path@),
{
    match ext_lower_chars(path) {
        None => false,
        Some(e) => chars_eq_str(&e, "mp4") || chars_eq_str(&e, "mp3") || chars_eq_str(&e, "m4a")
            || chars_eq_str(&e, "m4b") || chars_eq_str(&e, "wav"),
    }
}

/// Whether `path` classifies as chapter-capable audio.
pub fn is_chapter_audio_path(path: &str) -> (r: bool)
    ensures
        r == classifies_chapter_audio(path@),
{
    match ext_lower_chars(path) {
        None => false,
        Some(e) => chars_eq_str(&e, "mp4") || chars_eq_str(&e, "m4a") || chars_eq_str(&e, "m4b"),
    }
}

/// Whether `path` classifies as an image file.
pub fn is_image_path(path: &str) -> (r: bool)
    ensures
        r == classifies_image(path@),
{
    match ext_lower_chars(path) {
        None => false,
        Some(e) => chars_eq_str(&e, "jpg") || chars_eq_str(&e, "jpeg") || chars_eq_str(&e, "png"),
    }
}

/// Whether the path `f` has an extension that, lowercased, matches one of
/// the (lowercased) extensions in `exts`.
pub open spec fn has_ext_in(f: Seq<char>, exts: Seq<Seq<char>>) -> bool {
    match ext_lower_of(f) {
        Some(e) => exists|i: int| 0 <= i < exts.len() && lower(exts[i]) == e,
        None => false,
    }
}

/// Character-vector equality against the lowercasing of a string slice.
fn chars_eq_str_lower(v: &Vec<char>, s: &str) -> (r: bool)
    ensures
        r == (v@ == lower(s@)),
{
    let n = s.unicode_len();
    if v.len() != n {
        return false;
    }
    let mut i: usize = 0;
    while i < n
        invariant
            i <= n,
            n == s@.len(),
            v@.len() == n,
            forall|k: int| 0 <= k < i ==> v@[k] == lower(s@)[k],
        decreases n - i,
    {
        let c = s.get_char(i);
        let lc: char = if 'A' <= c && c <= 'Z' {
            ((c as u8) + 32) as char
        } else {
            c
        };
        if v[i] != lc {
            return false;
        }
        i += 1;
    }
    proof {
        assert(v@ =~= lower(s@));
    }
    true
}

/// Keeps exactly those paths whose extension matches one of the given
/// extensions, case-insensitively, in their original order.
pub fn get_files_by_extension(files: Vec<String>, extensions: Vec<&str>) -> (r: Vec<String>)
    ensures
        r.deep_view() == files.deep_view().filter(
            |f: Seq<char>| has_ext_in(f, extensions.deep_view()),
        ),
{
    let ghost pred = |f: Seq<char>| has_ext_in(f, extensions.deep_view());
    let mut out: Vec<String> = Vec::new();
    let mut i: usize = 0;
    while i < files.len()
        invariant
            i <= files.len(),
            out.deep_view() == files.deep_view().take(i as int).filter(pred),
            pred == (|f: Seq<char>| has_ext_in(f, extensions.deep_view())),
        decreases files.len() - i,
    {
        let keep: bool = match ext_lower_chars(files[i].as_str()) {
            None => false,
            Some(e) => {
                let mut found = false;
                let mut j: usize = 0;
                while j < extensions.len()
                    invariant
                        j <= extensions.len(),
                        found == exists|k: int|
                            0 <= k < j && lower(extensions.deep_view()[k]) == e@,
                    decreases extensions.len() - j,
                {
                    proof {
                        assert(extensions.deep_view()[j as int] == extensions@[j as int]@);
                    }
                    if chars_eq_str_lower(&e, extensions[j]) {
                        found = true;
                        proof {
                            assert(lower(extensions.deep_view()[j as int]) == e@);
                            assert(exists|k: int|
                                0 <= k < j + 1 && lower(extensions.deep_view()[k]) == e@);
                        }
                    }
                    j += 1;
                }
                found
            },
        };
        proof {
            assert(keep == pred(files.deep_view()[i as int]));
            reveal(Seq::filter);
            assert(files.deep_view().take(i + 1 as int).drop_last() =~= files.deep_view().take(
                i as int,
            ));
            assert(files.deep_view().take(i + 1 as int).last() == files.deep_view()[i as int]);
        }
        if keep {
            out.push(files[i].clone());
        }
        i += 1;
    }
    proof {
        assert(files.deep_view().take(files.len() as int) =~= files.deep_view());
    }
    out
}

/// No extension is at once an audio and an image one.
pub proof fn lemma_audio_image_disjoint(e: Seq<char>)
    ensures
        !(is_audio_ext(e) && is_image_ext(e)),
{
    reveal_strlit("mp4");
    reveal_strlit("mp3");
    reveal_strlit("m4a");
    reveal_strlit("m4b");
    reveal_strlit("wav");
    reveal_strlit("jpg");
    reveal_strlit("jpeg");
    reveal_strlit("png");
    assert("mp4"@[0] == 'm' && "mp3"@[0] == 'm' && "m4a"@[0] == 'm' && "m4b"@[0] == 'm'
        && "wav"@[0] == 'w');
    assert("jpg"@[0] == 'j' && "png"@[0] == 'p' && "jpeg"@.len() == 4);
    assert("mp4"@.len() == 3 && "mp3"@.len() == 3 && "m4a"@.len() == 3 && "m4b"@.len() == 3
        && "wav"@.len() == 3);
}

} // verus!
