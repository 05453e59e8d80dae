//! Folder-structure scanning: when the library is organised as
//! author directories holding work directories (optionally nested once
//! more for a series), the works are read off the directory tree itself
//! rather than from embedded tags. A work directory with subdirectories
//! is a series: each subdirectory becomes a work carrying the series
//! name, and the parent itself becomes none.

use vstd::prelude::*;
use crate::ext::{classifies_audio, classifies_image};
use crate::ids::{id_of, string_to_id};
use crate::types::{Work, WorkView};
use crate::work::{work_from_fields, work_wf};

verus! {

/// A third-level directory: one work of a series.
pub struct SubWorkDir {
    /// The directory's own name: the work's title.
    pub name: String,
    /// The directory's full path.
    pub path: String,
    /// The paths of every entry in the directory.
    pub entry_paths: Vec<String>,
}

/// A second-level directory: either one work, or — when it has
/// subdirectories — a series of works.
pub struct WorkDir {
    pub name: String,
    pub path: String,
    /// The paths of every entry in the directory.
    pub entry_paths: Vec<String>,
    /// The subdirectories, each a work of the series named by this
    /// directory.
    pub subdirs: Vec<SubWorkDir>,
}

/// A top-level directory: one author and the work directories under it.
pub struct AuthorDir {
    /// The directory's own name: the author's display name.
    pub name: String,
    pub works: Vec<WorkDir>,
}

/// The work a directory denotes: named by the directory, owned by the
/// author id, holding every entry as a file. An empty series string
/// means no series.
pub open spec fn folder_work(
    author_id: Seq<char>,
    series_str: Seq<char>,
    name: Seq<char>,
    path: Seq<char>,
    entries: Seq<Seq<char>>,
) -> WorkView {
    WorkView {
        id: Seq::empty(),
        name: name,
        author: author_id,
        series: if series_str.len() == 0 {
            None
        } else {
            Some(series_str)
        },
        path: path,
        files: entries,
        image_files: entries.filter(|f: Seq<char>| classifies_image(f)),
        audio_files: entries.filter(|f: Seq<char>| classifies_audio(f)),
    }
}

/// The works one work directory denotes: itself when it has no
/// subdirectories, else one work per subdirectory, in order, carrying
/// the directory's name as their series.
pub open spec fn works_of_workdir(author_id: Seq<char>, w: WorkDir) -> Seq<WorkView> {
    (if w.subdirs@.len() == 0 {
        seq![folder_work(author_id, Seq::empty(), w.name@, w.path@, w.entry_paths.deep_view())]
    } else {
        Seq::<WorkView>::empty()
    }) + Seq::new(
        w.subdirs@.len(),
        |i: int|
            folder_work(
                author_id,
                w.name@,
                w.subdirs@[i].name@,
                w.subdirs@[i].path@,
                w.subdirs@[i].entry_paths.deep_view(),
            ),
    )
}

/// The works of a list of work directories, in order.
pub open spec fn works_of_workdirs(author_id: Seq<char>, ws: Seq<WorkDir>) -> Seq<WorkView>
    decreases ws.len(),
{
    if ws.len() == 0 {
        Seq::empty()
    } else {
        works_of_workdirs(author_id, ws.drop_last()) + works_of_workdir(author_id, ws.last())
    }
}

/// The works of a list of author directories, in order, each under its
/// author's stable id.
pub open spec fn works_of_authors(authors: Seq<AuthorDir>) -> Seq<WorkView>
    decreases authors.len(),
{
    if authors.len() == 0 {
        Seq::empty()
    } else {
        works_of_authors(authors.drop_last()) + works_of_workdirs(
            id_of(authors.last().name@),
            authors.last().works@,
        )
    }
}

/// The author identities a folder scan creates: one per author
/// directory, in order, each owed a creation request.
pub fn author_identities(authors: &Vec<AuthorDir>) -> (r: Vec<(String, String)>)
    ensures
        r@.len() == authors@.len(),
        forall|i: int|
            0 <= i < r@.len() ==> (#[trigger] r@[i]).0@ == authors@[i].name@ && r@[i].1@ == id_of(
                authors@[i].name@,
            ),
{
    let mut r: Vec<(String, String)> = Vec::new();
    let mut i: usize = 0;
    while i < authors.len()
        invariant
            i <= authors@.len(),
            r@.len() == i,
            forall|k: int|
                0 <= k < i ==> (#[trigger] r@[k]).0@ == authors@[k].name@ && r@[k].1@ == id_of(
                    authors@[k].name@,
                ),
        decreases authors@.len() - i,
    {
        let name = authors[i].name.clone();
        let id = string_to_id(authors[i].name.clone());
        r.push((name, id));
        i += 1;
    }
    r
}

/// Copies a path list.
fn clone_paths(v: &Vec<String>) -> (r: Vec<String>)
    ensures
        r.deep_view() == v.deep_view(),
{
    let r = v.clone();
    proof {
        assert(r.deep_view() =~~= v.deep_view());
    }
    r
}

/// Reads the works off the directory tree: for each author directory,
/// each work directory becomes one work, or — when it nests further —
/// one work per subdirectory carrying the series name.
pub fn works_from_folder_tree(authors: &Vec<AuthorDir>) -> (r: Vec<Work>)
    ensures
        r@.map_values(|w: Work| w@) == works_of_authors(authors@),
        forall|i: int| 0 <= i < r@.len() ==> work_wf((#[trigger] r@[i])@),
{
    let mut out: Vec<Work> = Vec::new();
    let mut a: usize = 0;
    proof {
        assert(authors@.take(0) =~= Seq::<AuthorDir>::empty());
        assert(out@.map_values(|w: Work| w@) =~= works_of_authors(authors@.take(0)));
    }
    while a < authors.len()
        invariant
            a <= authors@.len(),
            out@.map_values(|w: Work| w@) == works_of_authors(authors@.take(a as int)),
            forall|i: int| 0 <= i < out@.len() ==> work_wf((#[trigger] out@[i])@),
        decreases authors@.len() - a,
    {
        let author_id = string_to_id(authors[a].name.clone());
        let ghost aid = id_of(authors@[a as int].name@);
        let ghost base = works_of_authors(authors@.take(a as int));
        let works_n = authors[a].works.len();
        let mut wi: usize = 0;
        proof {
            assert(authors@[a as int].works@.take(0) =~= Seq::<WorkDir>::empty());
            assert(base + works_of_workdirs(aid, authors@[a as int].works@.take(0)) =~= base);
        }
        while wi < works_n
            invariant
                wi <= authors@[a as int].works@.len(),
                works_n == authors@[a as int].works@.len(),
                0 <= a < authors@.len(),
                author_id@ == aid,
                aid == id_of(authors@[a as int].name@),
                base == works_of_authors(authors@.take(a as int)),
                out@.map_values(|w: Work| w@) == base + works_of_workdirs(
                    aid,
                    authors@[a as int].works@.take(wi as int),
                ),
                forall|i: int| 0 <= i < out@.len() ==> work_wf((#[trigger] out@[i])@),
            decreases works_n - wi,
        {
            let ghost wd = authors@[a as int].works@[wi as int];
            let ghost mid = base + works_of_workdirs(aid, authors@[a as int].works@.take(wi as int));
            let subdirs_n = authors[a].works[wi].subdirs.len();
            if subdirs_n == 0 {
                let w = work_from_fields(
                    String::new(),
                    authors[a].works[wi].name.clone(),
                    author_id.clone(),
                    String::new(),
                    authors[a].works[wi].path.clone(),
                    clone_paths(&authors[a].works[wi].entry_paths),
                );
                proof {
                    assert(w@ == folder_work(aid, Seq::empty(), wd.name@, wd.path@, wd.entry_paths.deep_view()));
                }
                out.push(w);
                proof {
                    assert(out@.map_values(|w: Work| w@) =~= mid + seq![
                        folder_work(aid, Seq::empty(), wd.name@, wd.path@, wd.entry_paths.deep_view()),
                    ]);
                }
            }
            let ghost subs = Seq::new(
                wd.subdirs@.len(),
                |i: int|
                    folder_work(
                        aid,
                        wd.name@,
                        wd.subdirs@[i].name@,
                        wd.subdirs@[i].path@,
                        wd.subdirs@[i].entry_paths.deep_view(),
                    ),
            );
            let ghost mid2 = out@.map_values(|w: Work| w@);
            let mut si: usize = 0;
            proof {
                assert(subs.take(0) =~= Seq::<WorkView>::empty());
                assert(mid2 + subs.take(0) =~= mid2);
            }
            while si < subdirs_n
                invariant
                    si <= wd.subdirs@.len(),
                    subdirs_n == wd.subdirs@.len(),
                    0 <= a < authors@.len(),
                    0 <= wi < authors@[a as int].works@.len(),
                    wd == authors@[a as int].works@[wi as int],
                    author_id@ == aid,
                    subs == Seq::new(
                        wd.subdirs@.len(),
                        |i: int|
                            folder_work(
                                aid,
                                wd.name@,
                                wd.subdirs@[i].name@,
                                wd.subdirs@[i].path@,
                                wd.subdirs@[i].entry_paths.deep_view(),
                            ),
                    ),
                    out@.map_values(|w: Work| w@) == mid2 + subs.take(si as int),
                    forall|i: int| 0 <= i < out@.len() ==> work_wf((#[trigger] out@[i])@),
                decreases subdirs_n - si,
            {
                let w = work_from_fields(
                    String::new(),
                    authors[a].works[wi].subdirs[si].name.clone(),
                    author_id.clone(),
                    authors[a].works[wi].name.clone(),
                    authors[a].works[wi].subdirs[si].path.clone(),
                    clone_paths(&authors[a].works[wi].subdirs[si].entry_paths),
                );
                proof {
                    assert(w@ == subs[si as int]);
                }
                out.push(w);
                proof {
                    assert(subs.take(si + 1 as int) =~= subs.take(si as int).push(subs[si as int]));
                    Seq::push_distributes_over_add(
                        mid2,
                        subs.take(si as int),
                        subs[si as int],
                    );
                    assert(out@.map_values(|w: Work| w@) =~= (mid2 + subs.take(si as int)).push(
                        subs[si as int],
                    ));
                    assert(out@.map_values(|w: Work| w@) =~= mid2 + subs.take(si + 1 as int));
                }
                si += 1;
            }
            proof {
                assert(subs.take(subdirs_n as int) =~= subs);
                assert(authors@[a as int].works@.take(wi + 1 as int).drop_last() =~= authors@[
                    a as int
                ].works@.take(wi as int));
                assert(authors@[a as int].works@.take(wi + 1 as int).last() == wd);
                if subdirs_n == 0 {
                    assert(works_of_workdir(aid, wd) =~= seq![
                        folder_work(aid, Seq::empty(), wd.name@, wd.path@, wd.entry_paths.deep_view()),
                    ] + subs);
                } else {
                    assert(works_of_workdir(aid, wd) =~= subs);
                }
                assert(out@.map_values(|w: Work| w@) =~= base + works_of_workdirs(
                    aid,
                    authors@[a as int].works@.take(wi + 1 as int),
                ));
            }
            wi += 1;
        }
        proof {
            assert(authors@[a as int].works@.take(works_n as int) =~= authors@[a as int].works@);
            assert(authors@.take(a + 1 as int).drop_last() =~= authors@.take(a as int));
            assert(authors@.take(a + 1 as int).last() == authors@[a as int]);
            assert(out@.map_values(|w: Work| w@) =~= works_of_authors(authors@.take(a + 1 as int)));
        }
        a += 1;
    }
    proof {
        assert(authors@.take(authors@.len() as int) =~= authors@);
    }
    out
}

} // verus!
