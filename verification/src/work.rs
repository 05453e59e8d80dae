//! Construction and growth of `Work` records: the classified file lists
//! are kept exactly in step with the full file list, and a file joins a
//! work at most once.

use vstd::prelude::*;
use crate::ext::{classifies_audio, classifies_image, is_audio_path, is_image_path};
use crate::types::{Work, WorkView};

verus! {

/// A well-formed work: the classified lists are exactly the files that
/// classify as images and as audio, in order.
pub open spec fn work_wf(w: WorkView) -> bool {
    &&& w.image_files == w.files.filter(|f: Seq<char>| classifies_image(f))
    &&& w.audio_files == w.files.filter(|f: Seq<char>| classifies_audio(f))
}

/// What adding a file to a work does: nothing when the file is already
/// attributed to it; otherwise it joins the file list and whichever
/// classified lists it belongs to.
pub open spec fn push_model(w: WorkView, f: Seq<char>) -> WorkView {
    if w.files.contains(f) {
        w
    } else {
        WorkView {
            files: w.files.push(f),
            image_files: if classifies_image(f) {
                w.image_files.push(f)
            } else {
                w.image_files
            },
            audio_files: if classifies_audio(f) {
                w.audio_files.push(f)
            } else {
                w.audio_files
            },
            ..w
        }
    }
}

/// Keeps the paths that classify as images, in order.
pub fn filter_image_paths(files: &Vec<String>) -> (r: Vec<String>)
    ensures
        r.deep_view() == files.deep_view().filter(|f: Seq<char>| classifies_image(f)),
{
    let ghost pred = |f: Seq<char>| classifies_image(f);
    let mut out: Vec<String> = Vec::new();
    let mut i: usize = 0;
    while i < files.len()
        invariant
            i <= files.len(),
            out.deep_view() == files.deep_view().take(i as int).filter(pred),
            pred == (|f: Seq<char>| classifies_image(f)),
        decreases files.len() - i,
    {
        let keep = is_image_path(files[i].as_str());
        proof {
            reveal(Seq::filter);
            assert(files.deep_view().take(i + 1 as int).drop_last() =~= files.deep_view().take(
                i as int,
            ));
            assert(files.deep_view().take(i + 1 as int).last() == files.deep_view()[i as int]);
        }
        if keep {
            out.push(files[i].clone());
        }
        i += 1;
    }
    proof {
        assert(files.deep_view().take(files.len() as int) =~= files.deep_view());
    }
    out
}

/// Keeps the paths that classify as audio, in order.
pub fn filter_audio_paths(files: &Vec<String>) -> (r: Vec<String>)
    ensures
        r.deep_view() == files.deep_view().filter(|f: Seq<char>| classifies_audio(f)),
{
    let ghost pred = |f: Seq<char>| classifies_audio(f);
    let mut out: Vec<String> = Vec::new();
    let mut i: usize = 0;
    while i < files.len()
        invariant
            i <= files.len(),
            out.deep_view() == files.deep_view().take(i as int).filter(pred),
            pred == (|f: Seq<char>| classifies_audio(f)),
        decreases files.len() - i,
    {
        let keep = is_audio_path(files[i].as_str());
        proof {
            reveal(Seq::filter);
            assert(files.deep_view().take(i + 1 as int).drop_last() =~= files.deep_view().take(
                i as int,
            ));
            assert(files.deep_view().take(i + 1 as int).last() == files.deep_view()[i as int]);
        }
        if keep {
            out.push(files[i].clone());
        }
        i += 1;
    }
    proof {
        assert(files.deep_view().take(files.len() as int) =~= files.deep_view());
    }
    out
}

/// Whether some path in `v` equals `s`.
pub fn contains_path(v: &Vec<String>, s: &str) -> (r: bool)
    ensures
        r == v.deep_view().contains(s@),
{
    let mut i: usize = 0;
    while i < v.len()
        invariant
            i <= v.len(),
            forall|k: int| 0 <= k < i ==> v.deep_view()[k] != s@,
        decreases v.len() - i,
    {
        if crate::strutil::str_eq(v[i].as_str(), s) {
            proof {
                assert(v.deep_view()[i as int] == s@);
            }
            return true;
        }
        i += 1;
    }
    false
}

/// Builds a work from stored fields. An empty series string at the
/// persistence layer means "no series" in the domain; the classified file
/// lists are derived from the full list.
pub fn work_from_fields(
    id: String,
    name: String,
    author: String,
    series: String,
    path: String,
    files: Vec<String>,
) -> (w: Work)
    ensures
        w@.id == id@,
        w@.name == name@,
        w@.author == author@,
        w@.path == path@,
        w@.series == (if series@.len() == 0 {
            Option::<Seq<char>>::None
        } else {
            Option::<Seq<char>>::Some(series@)
        }),
        w@.files == files.deep_view(),
        work_wf(w@),
{
    let series_opt: Option<String> = if series.as_str().is_empty() {
        None
    } else {
        Some(series)
    };
    let image_files = filter_image_paths(&files);
    let audio_files = filter_audio_paths(&files);
    Work { id, name, author, series: series_opt, path, files, image_files, audio_files }
}

impl Work {
    /// Adds a file to the work unless it is already attributed to it, and
    /// keeps the classified lists in step.
    pub fn push_file(&mut self, f: String)
        requires
            work_wf(old(self)@),
        ensures
            work_wf(final(self)@),
            final(self)@ == push_model(old(self)@, f@),
    {
        if contains_path(&self.files, f.as_str()) {
            return;
        }
        let ghost fv = f@;
        let ghost oldw = self@;
        let is_img = is_image_path(f.as_str());
        let is_aud = is_audio_path(f.as_str());
        if is_img {
            self.image_files.push(f.clone());
        }
        if is_aud {
            self.audio_files.push(f.clone());
        }
        self.files.push(f);
        proof {
            let imgp = |g: Seq<char>| classifies_image(g);
            let audp = |g: Seq<char>| classifies_audio(g);
            reveal(Seq::filter);
            assert(self.files.deep_view() =~= oldw.files.push(fv));
            assert(oldw.files.push(fv).drop_last() =~= oldw.files);
            assert(oldw.files.push(fv).filter(imgp) == if imgp(fv) {
                oldw.files.filter(imgp).push(fv)
            } else {
                oldw.files.filter(imgp)
            });
            assert(oldw.files.push(fv).filter(audp) == if audp(fv) {
                oldw.files.filter(audp).push(fv)
            } else {
                oldw.files.filter(audp)
            });
            if is_img {
                assert(self.image_files.deep_view() =~= oldw.image_files.push(fv));
            } else {
                assert(self.image_files.deep_view() =~= oldw.image_files);
            }
            if is_aud {
                assert(self.audio_files.deep_view() =~= oldw.audio_files.push(fv));
            } else {
                assert(self.audio_files.deep_view() =~= oldw.audio_files);
            }
        }
    }
}

} // verus!
