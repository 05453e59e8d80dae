//! Author identity registry: maps a raw display name to its stable id,
//! issuing at most one creation request per distinct name per scan run.
//! The id itself is a pure function of the name; the registry only
//! remembers which names have been seen, so that the persistence
//! collaborator is asked to create each author at most once.

use vstd::prelude::*;
use crate::ids::{id_of, string_to_id};
use crate::work::contains_path;

verus! {

/// The in-memory registry of one scan run.
pub struct AuthorRegistry {
    /// The display names resolved so far, in first-sight order.
    pub names: Vec<String>,
}

/// What one resolution does: the new name list, the stable id, and
/// whether a creation request is owed (exactly on first sight).
pub open spec fn resolve_model(names: Seq<Seq<char>>, name: Seq<char>) -> (
    Seq<Seq<char>>,
    Seq<char>,
    bool,
) {
    if names.contains(name) {
        (names, id_of(name), false)
    } else {
        (names.push(name), id_of(name), true)
    }
}

impl AuthorRegistry {
    /// Whether `name` has been resolved in this run.
    pub open spec fn seen(self, name: Seq<char>) -> bool {
        self.names.deep_view().contains(name)
    }

    /// An empty registry: no name has been seen.
    pub fn new() -> (r: AuthorRegistry)
        ensures
            r.names.deep_view() == Seq::<Seq<char>>::empty(),
    {
        let r = AuthorRegistry { names: Vec::new() };
        proof {
            assert(r.names.deep_view() =~= Seq::<Seq<char>>::empty());
        }
        r
    }

    /// Resolves a display name to its stable id. The returned flag says
    /// whether the caller owes the persistence collaborator a creation
    /// request: true exactly on the first sight of the name in this run.
    pub fn resolve_or_create(&mut self, name: &str) -> (r: (String, bool))
        ensures
            (final(self).names.deep_view(), r.0@, r.1) == resolve_model(
                old(self).names.deep_view(),
                name@,
            ),
            final(self).seen(name@),
    {
        let ghost oldnames = self.names.deep_view();
        let id = string_to_id(name.to_owned());
        if contains_path(&self.names, name) {
            (id, false)
        } else {
            self.names.push(name.to_owned());
            proof {
                assert(self.names.deep_view() =~= oldnames.push(name@));
                assert(self.names.deep_view().last() == name@);
            }
            (id, true)
        }
    }
}

/// Author ids are a pure function of the display name, and a second
/// resolution of a name never owes a second creation request: resolving
/// `name` again after it has been seen returns the same id, changes
/// nothing, and asks for no creation.
pub proof fn lemma_resolve_idempotent(names: Seq<Seq<char>>, name: Seq<char>)
    ensures
        ({
            let (n1, id1, c1) = resolve_model(names, name);
            let (n2, id2, c2) = resolve_model(n1, name);
            &&& id1 == id_of(name)
            &&& id2 == id1
            &&& c2 == false
            &&& n2 == n1
        }),
{
    let (n1, id1, c1) = resolve_model(names, name);
    if !names.contains(name) {
        assert(n1.last() == name);
        assert(n1.contains(name));
    }
}

} // verus!
