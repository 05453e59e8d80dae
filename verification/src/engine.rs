//! The work aggregator: one scan run's in-memory state, fed one
//! classified file at a time. Each file's tag is resolved against the
//! metadata template, its author identity is resolved or created, and the
//! file is merged into the single work keyed by the raw (author, title)
//! pair — case-sensitively — opening a new work seeded with the sibling
//! images of its directory when the key is new.

use vstd::prelude::*;
use crate::ext::{classifies_audio, classifies_image};
use crate::covers::{cover_file_name, cover_file_name_of, mime_known, mime_to_extension};
use crate::ids::id_of;
use crate::registry::{resolve_model, AuthorRegistry};
use crate::strutil::str_eq;
use crate::tags::{first_front_cover_idx, resolve_field, MetadataTemplate, TagDict};
use crate::types::{Work, WorkView};
use crate::work::{filter_image_paths, push_model, work_wf};
use vstd::string::StringExecFns;

verus! {

/// What the tag reader found in one file.
pub enum TagSource {
    /// The file could not be read or parsed at all.
    Unreadable,
    /// The file was read but carries no tag, neither primary nor any.
    Missing,
    /// The extracted tag dictionary.
    Found(TagDict),
}

/// One candidate file of the walk, with everything the aggregation step
/// reads: its path, its containing directory, that directory's entries,
/// and the outcome of the tag read.
pub struct FileInput {
    /// The file's own path.
    pub path: String,
    /// The path of the containing directory.
    pub parent_path: String,
    /// The paths of every entry in the containing directory.
    pub siblings: Vec<String>,
    /// What the tag reader found.
    pub tag: TagSource,
}

/// The author identity resolved for one file: the raw display name, its
/// stable id, and whether this run owes the persistence collaborator a
/// creation request (true exactly on first sight; a failed creation is
/// fatal to the run).
pub struct AuthorInfo {
    pub name: String,
    pub id: String,
    pub created: bool,
}

/// A cover image to cache: the cache file name, the image bytes, and
/// whether the declared MIME type was recognised (an unrecognised one
/// fell back to jpg and deserves a warning).
pub struct CoverRequest {
    pub file_name: String,
    pub data: Vec<u8>,
    pub mime_known: bool,
}

/// A successfully merged file.
pub struct AcceptedInfo {
    pub author: AuthorInfo,
    pub album_title: String,
    /// The dedup key: raw author name concatenated with the album title.
    pub key: String,
    /// The cover the caller should cache, when the work has no image
    /// files yet and the tag embeds a front cover.
    pub cover: Option<CoverRequest>,
}

/// The per-file outcome, mirrored by the progress signals a caller
/// emits. Every failure is local: the file is skipped and the run goes
/// on.
pub enum ScanOutcome {
    /// The file was unreadable or corrupt.
    FailedRead,
    /// No tag was present at all.
    FailedTag,
    /// No author field resolved from the template.
    FailedAuthor,
    /// No album-title field resolved; the author had already been
    /// resolved, so a creation request may still be owed.
    FailedAlbum(AuthorInfo),
    /// The file joined a work.
    Accepted(AcceptedInfo),
}

/// How one file resolves against a template, before any state is
/// touched.
pub enum ResolutionView {
    Unreadable,
    Missing,
    NoAuthor,
    NoAlbum { author: Seq<char> },
    Resolved { author: Seq<char>, title: Seq<char> },
}

/// The dedup key of a raw author name and an album title:
/// case-sensitive concatenation.
pub open spec fn key_of(author: Seq<char>, title: Seq<char>) -> Seq<char> {
    author + title
}

/// Resolves one file purely: the tag outcome, then the author field,
/// then the album-title field, each in template order.
pub open spec fn resolve_input(template: MetadataTemplate, inp: FileInput) -> ResolutionView {
    match inp.tag {
        TagSource::Unreadable => ResolutionView::Unreadable,
        TagSource::Missing => ResolutionView::Missing,
        TagSource::Found(tag) => match resolve_field(
            tag.entries.deep_view(),
            template.author.deep_view(),
        ) {
            None => ResolutionView::NoAuthor,
            Some(author) => match resolve_field(
                tag.entries.deep_view(),
                template.title.deep_view(),
            ) {
                None => ResolutionView::NoAlbum { author },
                Some(title) => ResolutionView::Resolved { author, title },
            },
        },
    }
}

/// The model of the keyed work list.
pub open spec fn entries_view(works: Seq<(String, Work)>) -> Seq<(Seq<char>, WorkView)> {
    works.map_values(|e: (String, Work)| (e.0@, e.1@))
}

/// The index of the first entry with the given key.
pub open spec fn find_key(entries: Seq<(Seq<char>, WorkView)>, key: Seq<char>) -> Option<int>
    decreases entries.len(),
{
    if entries.len() == 0 {
        None
    } else if entries.first().0 == key {
        Some(0)
    } else {
        match find_key(entries.drop_first(), key) {
            Some(i) => Some(i + 1),
            None => None,
        }
    }
}

/// A fresh work for a newly seen key: named by the album title, owned by
/// the author id, located in the file's directory, and seeded with the
/// sibling files that classify as images.
pub open spec fn seed_work(
    author_id: Seq<char>,
    title: Seq<char>,
    parent: Seq<char>,
    siblings: Seq<Seq<char>>,
) -> WorkView {
    let images = siblings.filter(|f: Seq<char>| classifies_image(f));
    WorkView {
        id: Seq::empty(),
        name: title,
        author: author_id,
        series: None,
        path: parent,
        files: images,
        image_files: images,
        audio_files: Seq::empty(),
    }
}

/// What one file does to the keyed work list: nothing on a failed
/// resolution; otherwise the file joins the work at its key, a new work
/// being opened (seeded with sibling images) when the key is new.
pub open spec fn step_works(
    template: MetadataTemplate,
    works: Seq<(Seq<char>, WorkView)>,
    inp: FileInput,
) -> Seq<(Seq<char>, WorkView)> {
    match resolve_input(template, inp) {
        ResolutionView::Resolved { author, title } => {
            let key = key_of(author, title);
            match find_key(works, key) {
                Some(j) => works.update(j, (key, push_model(works[j].1, inp.path@))),
                None => works.push(
                    (
                        key,
                        push_model(
                            seed_work(id_of(author), title, inp.parent_path@, inp.siblings.deep_view()),
                            inp.path@,
                        ),
                    ),
                ),
            }
        },
        _ => works,
    }
}

/// What one file does to the registry: the author name is recorded as
/// seen whenever it resolves, even if the album title then does not.
pub open spec fn step_names(
    template: MetadataTemplate,
    names: Seq<Seq<char>>,
    inp: FileInput,
) -> Seq<Seq<char>> {
    match resolve_input(template, inp) {
        ResolutionView::NoAlbum { author } => resolve_model(names, author).0,
        ResolutionView::Resolved { author, .. } => resolve_model(names, author).0,
        _ => names,
    }
}

/// The cover request one file provokes: only when the work at its key —
/// the existing one, or the fresh seed — has no image files, and the tag
/// embeds a front-cover picture. The result names the cache file, the
/// bytes, and whether the MIME type was recognised.
pub open spec fn cover_model(
    template: MetadataTemplate,
    works: Seq<(Seq<char>, WorkView)>,
    inp: FileInput,
) -> Option<(Seq<char>, Seq<u8>, bool)> {
    match resolve_input(template, inp) {
        ResolutionView::Resolved { author, title } => {
            let key = key_of(author, title);
            let base = match find_key(works, key) {
                Some(j) => works[j].1,
                None => seed_work(id_of(author), title, inp.parent_path@, inp.siblings.deep_view()),
            };
            if base.image_files.len() == 0 {
                match inp.tag {
                    TagSource::Found(tag) => match first_front_cover_idx(tag.pictures@) {
                        Some(pi) => {
                            let pic = tag.pictures@[pi];
                            Some(
                                (
                                    cover_file_name_of(title, pic.mime@),
                                    pic.data@,
                                    mime_known(pic.mime@),
                                ),
                            )
                        },
                        None => None,
                    },
                    _ => None,
                }
            } else {
                None
            }
        },
        _ => None,
    }
}

/// No two entries share a key.
pub open spec fn keys_distinct(entries: Seq<(Seq<char>, WorkView)>) -> bool {
    forall|i: int, j: int|
        0 <= i < entries.len() && 0 <= j < entries.len() && i != j ==> (#[trigger] entries[i]).0
            != (#[trigger] entries[j]).0
}

/// Facts about `find_key`: a hit is the first entry with the key; a miss
/// means no entry has it.
pub proof fn lemma_find_key_props(entries: Seq<(Seq<char>, WorkView)>, key: Seq<char>)
    ensures
        match find_key(entries, key) {
            Some(j) => 0 <= j < entries.len() && entries[j].0 == key && forall|k: int|
                0 <= k < j ==> (#[trigger] entries[k]).0 != key,
            None => forall|k: int| 0 <= k < entries.len() ==> (#[trigger] entries[k]).0 != key,
        },
    decreases entries.len(),
{
    if entries.len() > 0 && entries.first().0 != key {
        lemma_find_key_props(entries.drop_first(), key);
        assert(forall|k: int|
            1 <= k < entries.len() ==> (#[trigger] entries[k]) == entries.drop_first()[k - 1]);
    }
}

/// One scan run's aggregation state.
pub struct ScanEngine {
    /// The immutable template of this run.
    pub template: MetadataTemplate,
    /// The author identities resolved so far.
    pub registry: AuthorRegistry,
    /// The open works, keyed by the raw (author, title) concatenation.
    pub works: Vec<(String, Work)>,
}

impl ScanEngine {
    /// The model of the open works.
    pub open spec fn works_view(self) -> Seq<(Seq<char>, WorkView)> {
        entries_view(self.works@)
    }

    /// A well-formed engine: keys are pairwise distinct and every open
    /// work is well-formed.
    pub open spec fn wf(self) -> bool {
        &&& keys_distinct(self.works_view())
        &&& forall|j: int|
            0 <= j < self.works_view().len() ==> work_wf((#[trigger] self.works_view()[j]).1)
    }

    /// A fresh engine for one run.
    pub fn new(template: MetadataTemplate) -> (r: ScanEngine)
        ensures
            r.template == template,
            r.works_view() == Seq::<(Seq<char>, WorkView)>::empty(),
            r.registry.names.deep_view() == Seq::<Seq<char>>::empty(),
            r.wf(),
    {
        let r = ScanEngine { template, registry: AuthorRegistry::new(), works: Vec::new() };
        proof {
            assert(r.works_view() =~= Seq::<(Seq<char>, WorkView)>::empty());
        }
        r
    }

    /// Processes one candidate file: resolves its tag against the
    /// template, resolves the author identity, and merges the file into
    /// the work at its dedup key. The outcome mirrors the per-file
    /// progress signal; every failure leaves the works untouched.
    pub fn process_file(&mut self, inp: &FileInput) -> (out: ScanOutcome)
        requires
            old(self).wf(),
        ensures
            final(self).wf(),
            final(self).template == old(self).template,
            final(self).works_view() == step_works(old(self).template, old(self).works_view(), *inp),
            final(self).registry.names.deep_view() == step_names(
                old(self).template,
                old(self).registry.names.deep_view(),
                *inp,
            ),
            match resolve_input(old(self).template, *inp) {
                ResolutionView::Unreadable => out is FailedRead,
                ResolutionView::Missing => out is FailedTag,
                ResolutionView::NoAuthor => out is FailedAuthor,
                ResolutionView::NoAlbum { author } => match out {
                    ScanOutcome::FailedAlbum(a) => {
                        &&& a.name@ == author
                        &&& a.id@ == id_of(author)
                        &&& a.created == !old(self).registry.seen(author)
                    },
                    _ => false,
                },
                ResolutionView::Resolved { author, title } => match out {
                    ScanOutcome::Accepted(info) => {
                        &&& info.author.name@ == author
                        &&& info.author.id@ == id_of(author)
                        &&& info.author.created == !old(self).registry.seen(author)
                        &&& info.album_title@ == title
                        &&& info.key@ == key_of(author, title)
                        &&& match cover_model(old(self).template, old(self).works_view(), *inp) {
                            Some(c) => match info.cover {
                                Some(req) => req.file_name@ == c.0 && req.data@ == c.1
                                    && req.mime_known == c.2,
                                None => false,
                            },
                            None => info.cover is None,
                        }
                    },
                    _ => false,
                },
            },
    {
        let tag = match &inp.tag {
            TagSource::Unreadable => {
                return ScanOutcome::FailedRead;
            },
            TagSource::Missing => {
                return ScanOutcome::FailedTag;
            },
            TagSource::Found(tag) => tag,
        };
        let author = match crate::tags::get_tag_with_fallback(tag, &self.template.author) {
            None => {
                return ScanOutcome::FailedAuthor;
            },
            Some(a) => a,
        };
        let (author_id, created) = self.registry.resolve_or_create(author.as_str());
        let author_info = AuthorInfo { name: author.clone(), id: author_id.clone(), created };
        let title = match crate::tags::get_tag_with_fallback(tag, &self.template.title) {
            None => {
                return ScanOutcome::FailedAlbum(author_info);
            },
            Some(t) => t,
        };
        let mut key = author.clone();
        key.append(title.as_str());

        let found = find_work_index(&self.works, key.as_str());
        let ghost oldworks = self.works_view();
        proof {
            lemma_find_key_props(oldworks, key@);
        }

        let cover: Option<CoverRequest>;
        match found {
            Some(j) => {
                cover = plan_cover(&self.works[j].1, tag, title.as_str());
                let mut e = self.works.remove(j);
                e.1.push_file(inp.path.clone());
                self.works.insert(j, e);
                proof {
                    assert(self.works_view() =~= oldworks.update(
                        j as int,
                        (key@, push_model(oldworks[j as int].1, inp.path@)),
                    ));
                }
            },
            None => {
                let images = filter_image_paths(&inp.siblings);
                let mut w = Work {
                    id: String::new(),
                    name: title.clone(),
                    author: author_id.clone(),
                    series: None,
                    path: inp.parent_path.clone(),
                    files: images.clone(),
                    image_files: images,
                    audio_files: Vec::new(),
                };
                proof {
                    lemma_seed_wf(inp.siblings.deep_view());
                    assert(w@.audio_files =~= Seq::<Seq<char>>::empty());
                    assert(w@ == seed_work(
                        id_of(author@),
                        title@,
                        inp.parent_path@,
                        inp.siblings.deep_view(),
                    ));
                }
                cover = plan_cover(&w, tag, title.as_str());
                w.push_file(inp.path.clone());
                self.works.push((key.clone(), w));
                proof {
                    assert(self.works_view() =~= oldworks.push(
                        (
                            key@,
                            push_model(
                                seed_work(
                                    id_of(author@),
                                    title@,
                                    inp.parent_path@,
                                    inp.siblings.deep_view(),
                                ),
                                inp.path@,
                            ),
                        ),
                    ));
                }
            },
        }
        ScanOutcome::Accepted(
            AcceptedInfo { author: author_info, album_title: title, key, cover },
        )
    }

    /// Attaches a cached cover path to the work with the given key, if
    /// one is open and the path does not classify as audio; the caller
    /// hands back the path after the cache step succeeded. A missing key
    /// or an audio-classified path changes nothing.
    pub fn attach_cover(&mut self, key: &str, path: String) -> (attached: bool)
        requires
            old(self).wf(),
        ensures
            final(self).wf(),
            final(self).template == old(self).template,
            final(self).registry == old(self).registry,
            !classifies_audio(path@) ==> final(self).works_view() == match find_key(
                old(self).works_view(),
                key@,
            ) {
                Some(j) => old(self).works_view().update(
                    j,
                    (key@, push_model(old(self).works_view()[j].1, path@)),
                ),
                None => old(self).works_view(),
            },
            classifies_audio(path@) ==> final(self).works_view() == old(self).works_view(),
            attached == (!classifies_audio(path@) && find_key(old(self).works_view(), key@) is Some),
    {
        if crate::ext::is_audio_path(path.as_str()) {
            return false;
        }
        let found = find_work_index(&self.works, key);
        let ghost oldworks = self.works_view();
        proof {
            lemma_find_key_props(oldworks, key@);
        }
        match found {
            Some(j) => {
                let mut e = self.works.remove(j);
                e.1.push_file(path);
                self.works.insert(j, e);
                proof {
                    assert(self.works_view() =~= oldworks.update(
                        j as int,
                        (oldworks[j as int].0, push_model(oldworks[j as int].1, path@)),
                    ));
                    assert(oldworks[j as int].0 == key@);
                }
                true
            },
            None => false,
        }
    }

    /// Hands the finished works over for the final flush, in the order
    /// their keys were first seen.
    pub fn into_works(self) -> (r: Vec<(String, Work)>)
        ensures
            entries_view(r@) == self.works_view(),
    {
        self.works
    }
}

/// The sibling-image seed is well-formed: filtering the image files out
/// of a list of images changes nothing, and none of them is audio.
proof fn lemma_seed_wf(siblings: Seq<Seq<char>>)
    ensures
        forall|a: Seq<char>, t: Seq<char>, p: Seq<char>|
            work_wf(#[trigger] seed_work(a, t, p, siblings)),
{
    let imgp = |f: Seq<char>| classifies_image(f);
    let audp = |f: Seq<char>| classifies_audio(f);
    let images = siblings.filter(imgp);
    lemma_filter_stable(siblings, imgp);
    lemma_filter_disjoint(siblings);
    assert(images.filter(imgp) =~= images);
    assert(images.filter(audp) =~= Seq::<Seq<char>>::empty());
}

/// Filtering twice by the same predicate is the same as filtering once.
proof fn lemma_filter_stable(s: Seq<Seq<char>>, pred: spec_fn(Seq<char>) -> bool)
    ensures
        s.filter(pred).filter(pred) == s.filter(pred),
    decreases s.len(),
{
    reveal(Seq::filter);
    if s.len() > 0 {
        lemma_filter_stable(s.drop_last(), pred);
        if pred(s.last()) {
            assert(s.filter(pred).drop_last() =~= s.drop_last().filter(pred));
        }
    }
    if s.len() == 0 {
        assert(s.filter(pred) =~= s);
    }
}

/// Nothing that classifies as an image also classifies as audio, so the
/// audio filter of an image filter is empty.
proof fn lemma_filter_disjoint(s: Seq<Seq<char>>)
    ensures
        s.filter(|f: Seq<char>| classifies_image(f)).filter(|f: Seq<char>| classifies_audio(f))
            == Seq::<Seq<char>>::empty(),
    decreases s.len(),
{
    reveal(Seq::filter);
    let imgp = |f: Seq<char>| classifies_image(f);
    let audp = |f: Seq<char>| classifies_audio(f);
    if s.len() > 0 {
        lemma_filter_disjoint(s.drop_last());
        if imgp(s.last()) {
            if let Some(e) = crate::ext::ext_lower_of(s.last()) {
                crate::ext::lemma_audio_image_disjoint(e);
            }
            assert(!audp(s.last()));
            assert(s.filter(imgp).drop_last() =~= s.drop_last().filter(imgp));
        }
    } else {
        assert(s.filter(imgp) =~= s);
    }
}

/// The key a file deduplicates under, when it resolves.
pub open spec fn input_key(template: MetadataTemplate, inp: FileInput) -> Option<Seq<char>> {
    match resolve_input(template, inp) {
        ResolutionView::Resolved { author, title } => Some(key_of(author, title)),
        _ => None,
    }
}

/// A whole run: the work list after processing `inputs` in order.
pub open spec fn run_works(
    template: MetadataTemplate,
    works: Seq<(Seq<char>, WorkView)>,
    inputs: Seq<FileInput>,
) -> Seq<(Seq<char>, WorkView)>
    decreases inputs.len(),
{
    if inputs.len() == 0 {
        works
    } else {
        run_works(template, step_works(template, works, inputs.first()), inputs.drop_first())
    }
}

/// The run invariant: keys are distinct, every audio file in a work list
/// was put there by a processed input resolving to that work's key, and
/// every resolved input's file is in the work at its key.
pub open spec fn run_inv(
    template: MetadataTemplate,
    works: Seq<(Seq<char>, WorkView)>,
    processed: Seq<FileInput>,
) -> bool {
    &&& keys_distinct(works)
    &&& forall|j: int, f: Seq<char>|
        0 <= j < works.len() && #[trigger] works[j].1.files.contains(f) && classifies_audio(f)
            ==> exists|a: int|
            0 <= a < processed.len() && input_key(template, #[trigger] processed[a]) == Some(
                works[j].0,
            ) && processed[a].path@ == f
    &&& forall|a: int|
        0 <= a < processed.len() && input_key(template, #[trigger] processed[a]) is Some
            ==> exists|j: int|
            0 <= j < works.len() && (#[trigger] works[j]).0 == input_key(template, processed[a])->0
                && works[j].1.files.contains(processed[a].path@)
}

/// Membership in a grown file list: the old files, plus the new one.
proof fn lemma_push_model_contains(w: WorkView, p: Seq<char>, f: Seq<char>)
    ensures
        push_model(w, p).files.contains(f) <==> (w.files.contains(f) || f == p),
{
    broadcast use vstd::seq_lib::lemma_seq_contains_after_push;

}

/// Members of a filtered sequence satisfy the predicate.
proof fn lemma_filter_contains_pred(s: Seq<Seq<char>>, pred: spec_fn(Seq<char>) -> bool, x: Seq<char>)
    requires
        s.filter(pred).contains(x),
    ensures
        pred(x),
{
    let i = choose|i: int| 0 <= i < s.filter(pred).len() && s.filter(pred)[i] == x;
    s.lemma_filter_pred(pred, i);
}

/// One step preserves the run invariant.
proof fn lemma_step_inv(
    template: MetadataTemplate,
    works: Seq<(Seq<char>, WorkView)>,
    processed: Seq<FileInput>,
    inp: FileInput,
)
    requires
        run_inv(template, works, processed),
    ensures
        run_inv(template, step_works(template, works, inp), processed.push(inp)),
{
    let works2 = step_works(template, works, inp);
    let processed2 = processed.push(inp);
    let n = processed.len() as int;
    assert(forall|a: int| 0 <= a < n ==> processed2[a] == #[trigger] processed[a]);
    assert(processed2[n] == inp);
    match resolve_input(template, inp) {
        ResolutionView::Resolved { author, title } => {
            let key = key_of(author, title);
            lemma_find_key_props(works, key);
            assert(input_key(template, inp) == Some(key));
            match find_key(works, key) {
                Some(j0) => {
                    let neww = push_model(works[j0].1, inp.path@);
                    assert(works2 == works.update(j0, (key, neww)));
                    assert(works2.len() == works.len());
                    assert(forall|i: int|
                        0 <= i < works.len() && i != j0 ==> works2[i] == #[trigger] works[i]);
                    assert(works2[j0].0 == key && works[j0].0 == key);
                    assert(keys_distinct(works2));
                    assert forall|j: int, f: Seq<char>|
                        0 <= j < works2.len() && #[trigger] works2[j].1.files.contains(f)
                            && classifies_audio(f) implies exists|a: int|
                        0 <= a < processed2.len() && input_key(template, #[trigger] processed2[a])
                            == Some(works2[j].0) && processed2[a].path@ == f by {
                        if j == j0 {
                            lemma_push_model_contains(works[j0].1, inp.path@, f);
                            if works[j0].1.files.contains(f) {
                                let a = choose|a: int|
                                    0 <= a < processed.len() && input_key(
                                        template,
                                        #[trigger] processed[a],
                                    ) == Some(works[j0].0) && processed[a].path@ == f;
                                assert(0 <= a < processed2.len() && input_key(
                                    template,
                                    processed2[a],
                                ) == Some(works2[j].0) && processed2[a].path@ == f);
                            } else {
                                assert(f == inp.path@);
                                assert(input_key(template, processed2[n]) == Some(works2[j].0)
                                    && processed2[n].path@ == f);
                            }
                        } else {
                            assert(works2[j] == works[j]);
                            let a = choose|a: int|
                                0 <= a < processed.len() && input_key(
                                    template,
                                    #[trigger] processed[a],
                                ) == Some(works[j].0) && processed[a].path@ == f;
                            assert(0 <= a < processed2.len() && input_key(template, processed2[a])
                                == Some(works2[j].0) && processed2[a].path@ == f);
                        }
                    }
                    assert forall|a: int|
                        0 <= a < processed2.len() && input_key(
                            template,
                            #[trigger] processed2[a],
                        ) is Some implies exists|j: int|
                        0 <= j < works2.len() && (#[trigger] works2[j]).0 == input_key(
                            template,
                            processed2[a],
                        )->0 && works2[j].1.files.contains(processed2[a].path@) by {
                        if a < n {
                            let j = choose|j: int|
                                0 <= j < works.len() && (#[trigger] works[j]).0 == input_key(
                                    template,
                                    processed[a],
                                )->0 && works[j].1.files.contains(processed[a].path@);
                            lemma_push_model_contains(works[j0].1, inp.path@, processed[a].path@);
                            assert(works2[j].0 == input_key(template, processed2[a])->0
                                && works2[j].1.files.contains(processed2[a].path@));
                        } else {
                            lemma_push_model_contains(works[j0].1, inp.path@, inp.path@);
                            assert(works2[j0].0 == input_key(template, processed2[a])->0
                                && works2[j0].1.files.contains(processed2[a].path@));
                        }
                    }
                },
                None => {
                    let seed = seed_work(
                        id_of(author),
                        title,
                        inp.parent_path@,
                        inp.siblings.deep_view(),
                    );
                    let neww = push_model(seed, inp.path@);
                    let jn = works.len() as int;
                    assert(works2 == works.push((key, neww)));
                    assert(forall|i: int| 0 <= i < jn ==> works2[i] == #[trigger] works[i]);
                    assert(works2[jn] == (key, neww));
                    assert(forall|i: int| 0 <= i < jn ==> (#[trigger] works[i]).0 != key);
                    assert(keys_distinct(works2));
                    assert forall|j: int, f: Seq<char>|
                        0 <= j < works2.len() && #[trigger] works2[j].1.files.contains(f)
                            && classifies_audio(f) implies exists|a: int|
                        0 <= a < processed2.len() && input_key(template, #[trigger] processed2[a])
                            == Some(works2[j].0) && processed2[a].path@ == f by {
                        if j == jn {
                            lemma_push_model_contains(seed, inp.path@, f);
                            if seed.files.contains(f) {
                                lemma_filter_contains_pred(
                                    inp.siblings.deep_view(),
                                    |g: Seq<char>| classifies_image(g),
                                    f,
                                );
                                if let Some(e) = crate::ext::ext_lower_of(f) {
                                    crate::ext::lemma_audio_image_disjoint(e);
                                }
                                assert(false);
                            } else {
                                assert(f == inp.path@);
                                assert(input_key(template, processed2[n]) == Some(works2[j].0)
                                    && processed2[n].path@ == f);
                            }
                        } else {
                            assert(works2[j] == works[j]);
                            let a = choose|a: int|
                                0 <= a < processed.len() && input_key(
                                    template,
                                    #[trigger] processed[a],
                                ) == Some(works[j].0) && processed[a].path@ == f;
                            assert(0 <= a < processed2.len() && input_key(template, processed2[a])
                                == Some(works2[j].0) && processed2[a].path@ == f);
                        }
                    }
                    assert forall|a: int|
                        0 <= a < processed2.len() && input_key(
                            template,
                            #[trigger] processed2[a],
                        ) is Some implies exists|j: int|
                        0 <= j < works2.len() && (#[trigger] works2[j]).0 == input_key(
                            template,
                            processed2[a],
                        )->0 && works2[j].1.files.contains(processed2[a].path@) by {
                        if a < n {
                            let j = choose|j: int|
                                0 <= j < works.len() && (#[trigger] works[j]).0 == input_key(
                                    template,
                                    processed[a],
                                )->0 && works[j].1.files.contains(processed[a].path@);
                            assert(works2[j].0 == input_key(template, processed2[a])->0
                                && works2[j].1.files.contains(processed2[a].path@));
                        } else {
                            lemma_push_model_contains(seed, inp.path@, inp.path@);
                            assert(works2[jn].0 == input_key(template, processed2[a])->0
                                && works2[jn].1.files.contains(processed2[a].path@));
                        }
                    }
                },
            }
        },
        _ => {
            assert(works2 == works);
            assert(input_key(template, inp) is None);
            assert forall|j: int, f: Seq<char>|
                0 <= j < works2.len() && #[trigger] works2[j].1.files.contains(f)
                    && classifies_audio(f) implies exists|a: int|
                0 <= a < processed2.len() && input_key(template, #[trigger] processed2[a]) == Some(
                    works2[j].0,
                ) && processed2[a].path@ == f by {
                let a = choose|a: int|
                    0 <= a < processed.len() && input_key(template, #[trigger] processed[a])
                        == Some(works[j].0) && processed[a].path@ == f;
                assert(0 <= a < processed2.len() && input_key(template, processed2[a]) == Some(
                    works2[j].0,
                ) && processed2[a].path@ == f);
            }
            assert forall|a: int|
                0 <= a < processed2.len() && input_key(
                    template,
                    #[trigger] processed2[a],
                ) is Some implies exists|j: int|
                0 <= j < works2.len() && (#[trigger] works2[j]).0 == input_key(
                    template,
                    processed2[a],
                )->0 && works2[j].1.files.contains(processed2[a].path@) by {
                assert(a < n);
            }
        },
    }
}

/// A whole run preserves the run invariant.
proof fn lemma_run_inv(
    template: MetadataTemplate,
    works: Seq<(Seq<char>, WorkView)>,
    processed: Seq<FileInput>,
    inputs: Seq<FileInput>,
)
    requires
        run_inv(template, works, processed),
    ensures
        run_inv(template, run_works(template, works, inputs), processed + inputs),
    decreases inputs.len(),
{
    if inputs.len() == 0 {
        assert(processed + inputs =~= processed);
    } else {
        lemma_step_inv(template, works, processed, inputs.first());
        lemma_run_inv(
            template,
            step_works(template, works, inputs.first()),
            processed.push(inputs.first()),
            inputs.drop_first(),
        );
        assert(processed.push(inputs.first()) + inputs.drop_first() =~= processed + inputs);
    }
}

/// Files with the same resolved (author, title) pair end up in exactly
/// one work's file list, regardless of visitation order: after a run
/// over files with pairwise distinct paths, starting from an empty work
/// list, each resolved audio file's path is in the file list of the one
/// work keyed by its resolution, and in no other work's.
pub proof fn lemma_file_in_exactly_one_work(
    template: MetadataTemplate,
    inputs: Seq<FileInput>,
    i: int,
)
    requires
        0 <= i < inputs.len(),
        input_key(template, inputs[i]) is Some,
        classifies_audio(inputs[i].path@),
        forall|a: int, b: int|
            0 <= a < inputs.len() && 0 <= b < inputs.len() && a != b ==> (#[trigger] inputs[a]).path@
                != (#[trigger] inputs[b]).path@,
    ensures
        ({
            let works = run_works(template, Seq::empty(), inputs);
            let key = input_key(template, inputs[i])->0;
            &&& exists|j: int|
                0 <= j < works.len() && (#[trigger] works[j]).0 == key && works[j].1.files.contains(
                    inputs[i].path@,
                )
            &&& forall|j: int|
                0 <= j < works.len() && (#[trigger] works[j]).0 != key
                    ==> !works[j].1.files.contains(inputs[i].path@)
        }),
{
    let works = run_works(template, Seq::empty(), inputs);
    let key = input_key(template, inputs[i])->0;
    assert(run_inv(template, Seq::empty(), Seq::empty()));
    lemma_run_inv(template, Seq::empty(), Seq::empty(), inputs);
    assert(Seq::<FileInput>::empty() + inputs =~= inputs);
    assert(run_inv(template, works, inputs));
    assert(exists|j: int|
        0 <= j < works.len() && (#[trigger] works[j]).0 == key && works[j].1.files.contains(
            inputs[i].path@,
        ));
    assert forall|j: int|
        0 <= j < works.len() && (#[trigger] works[j]).0 != key
            implies !works[j].1.files.contains(inputs[i].path@) by {
        if works[j].1.files.contains(inputs[i].path@) {
            let a = choose|a: int|
                0 <= a < inputs.len() && input_key(template, #[trigger] inputs[a]) == Some(
                    works[j].0,
                ) && inputs[a].path@ == inputs[i].path@;
            assert(a == i);
            assert(false);
        }
    }
}

/// Finds the open work with the given key.
fn find_work_index(works: &Vec<(String, Work)>, key: &str) -> (r: Option<usize>)
    ensures
        match r {
            Some(j) => j < works@.len() && find_key(entries_view(works@), key@) == Some(j as int),
            None => find_key(entries_view(works@), key@) is None,
        },
{
    let ghost entries = entries_view(works@);
    proof {
        assert(entries.skip(0) =~= entries);
    }
    let mut i: usize = 0;
    while i < works.len()
        invariant
            i <= works@.len(),
            entries == entries_view(works@),
            entries.len() == works@.len(),
            find_key(entries, key@) == match find_key(entries.skip(i as int), key@) {
                Some(j) => Some(j + i),
                None => None::<int>,
            },
        decreases works@.len() - i,
    {
        proof {
            assert(entries.skip(i as int).first() == entries[i as int]);
            assert(entries.skip(i as int).drop_first() =~= entries.skip(i + 1 as int));
        }
        if str_eq(works[i].0.as_str(), key) {
            return Some(i);
        }
        i += 1;
    }
    proof {
        assert(entries.skip(entries.len() as int) =~= Seq::<(Seq<char>, WorkView)>::empty());
    }
    None
}

/// The cover request for the work `base` and the tag of the current
/// file: only when the work has no image files and the tag embeds a
/// front cover.
fn plan_cover(base: &Work, tag: &TagDict, title: &str) -> (r: Option<CoverRequest>)
    ensures
        ({
            let m = if base@.image_files.len() == 0 {
                match first_front_cover_idx(tag.pictures@) {
                    Some(pi) => {
                        let pic = tag.pictures@[pi];
                        Some((cover_file_name_of(title@, pic.mime@), pic.data@, mime_known(pic.mime@)))
                    },
                    None => None,
                }
            } else {
                None
            };
            match m {
                Some(c) => match r {
                    Some(req) => req.file_name@ == c.0 && req.data@ == c.1 && req.mime_known
                        == c.2,
                    None => false,
                },
                None => r is None,
            }
        }),
{
    if !base.image_files.is_empty() {
        return None;
    }
    match tag.front_cover() {
        None => None,
        Some(pic) => {
            let file_name = cover_file_name(title, pic.mime.as_str());
            let (_, known) = mime_to_extension(pic.mime.as_str());
            Some(CoverRequest { file_name, data: pic.data.clone(), mime_known: known })
        },
    }
}

} // verus!
