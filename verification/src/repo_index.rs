//! The index of a repository: the builds of plugins that it offers, and the
//! choice of the build to install.

use crate::json::{array_items, find, json_array, json_object, json_string, object_members, string_text};
use crate::metadata::{spec_from_json, Metadata};
use crate::ordering::precedes;
use crate::text::{lookup, same_text, views};
use crate::versions::{ArchiveVersion, RudderVersion};
use vstd::prelude::*;

verus! {

/// A build of a plugin that a repository offers.
#[derive(Debug, Clone, PartialEq, Eq)]
pub struct Candidate {
    pub name: String,
    pub version: ArchiveVersion,
    /// Where the repository keeps the archive.
    pub path: String,
}

/// A build as plain values.
pub struct CandidateView {
    pub name: Seq<char>,
    pub version: ArchiveVersion,
    pub path: Seq<char>,
}

impl View for Candidate {
    type V = CandidateView;

    open spec fn view(&self) -> CandidateView {
        CandidateView { name: self.name@, version: self.version, path: self.path@ }
    }
}

/// The build is one of the plugin `name` for the line of the running host.
pub open spec fn eligible(c: CandidateView, running: RudderVersion, name: Seq<char>) -> bool {
    c.name == name && c.version.rudder_version.compatible_with(running)
}

/// The build at `at` is the one to install: it is eligible, no eligible build
/// is later than it, and every eligible build in front of it is earlier.
pub open spec fn is_best(
    index: Seq<Candidate>,
    running: RudderVersion,
    name: Seq<char>,
    at: int,
) -> bool {
    &&& 0 <= at < index.len()
    &&& eligible(index[at]@, running, name)
    &&& forall|j: int|
        0 <= j < index.len() && eligible((#[trigger] index[j])@, running, name) ==> !precedes(
            index[at].version.plugin_version,
            index[j].version.plugin_version,
        )
    &&& forall|j: int|
        0 <= j < at && eligible((#[trigger] index[j])@, running, name) ==> precedes(
            index[j].version.plugin_version,
            index[at].version.plugin_version,
        )
}

/// Picks the build of the plugin `name` to install on the running host: the
/// latest of those built for its line, a release before the nightly build of
/// the same version.
pub fn get_compatible_plugin(index: &Vec<Candidate>, running: &RudderVersion, name: &str) -> (r:
    Option<usize>)
    ensures
        match r {
            Some(at) => is_best(index@, *running, name@, at as int),
            None => forall|j: int|
                0 <= j < index@.len() ==> !eligible((#[trigger] index@[j])@, *running, name@),
        },
{
    let mut best: Option<usize> = None;
    let mut i: usize = 0;
    while i < index.len()
        invariant
            i <= index.len(),
            match best {
                Some(at) => at < i && is_best(index@.take(i as int), *running, name@, at as int),
                None => forall|j: int|
                    0 <= j < i ==> !eligible((#[trigger] index@[j])@, *running, name@),
            },
        decreases index.len() - i,
    {
        let ghost before = index@.take(i as int);
        let ghost after = index@.take(i + 1);
        proof {
            assert forall|j: int| 0 <= j < i implies #[trigger] after[j] == before[j] by {}
            assert(after[i as int] == index@[i as int]);
        }
        let candidate = &index[i];
        if same_text(candidate.name.as_str(), name) && candidate.version.rudder_version.is_compatible(
            running,
        ) {
            match best {
                None => {
                    best = Some(i);
                    assert(is_best(after, *running, name@, i as int)) by {
                        assert forall|j: int|
                            0 <= j < after.len() && eligible(
                                (#[trigger] after[j])@,
                                *running,
                                name@,
                            ) implies j == i by {
                            if j < i {
                                assert(after[j] == index@[j]);
                            }
                        }
                    }
                },
                Some(at) => {
                    if crate::ordering::outranks(
                        &candidate.version.plugin_version,
                        &index[at].version.plugin_version,
                    ) {
                        best = Some(i);
                        assert(is_best(after, *running, name@, i as int)) by {
                            assert forall|j: int|
                                0 <= j < i && eligible(
                                    (#[trigger] after[j])@,
                                    *running,
                                    name@,
                                ) implies precedes(
                                after[j].version.plugin_version,
                                after[i as int].version.plugin_version,
                            ) by {
                                assert(after[j] == before[j]);
                                assert(!precedes(
                                    before[at as int].version.plugin_version,
                                    before[j].version.plugin_version,
                                ));
                            }
                        }
                    } else {
                        assert(is_best(after, *running, name@, at as int)) by {
                            assert(after[at as int] == before[at as int]);
                            assert forall|j: int|
                                0 <= j < after.len() && eligible(
                                    (#[trigger] after[j])@,
                                    *running,
                                    name@,
                                ) implies !precedes(
                                after[at as int].version.plugin_version,
                                after[j].version.plugin_version,
                            ) by {
                                if j < i {
                                    assert(after[j] == before[j]);
                                }
                            }
                            assert forall|j: int|
                                0 <= j < at && eligible(
                                    (#[trigger] after[j])@,
                                    *running,
                                    name@,
                                ) implies precedes(
                                after[j].version.plugin_version,
                                after[at as int].version.plugin_version,
                            ) by {
                                assert(after[j] == before[j]);
                            }
                        }
                    }
                },
            }
        } else {
            match best {
                None => {},
                Some(at) => {
                    assert(is_best(after, *running, name@, at as int)) by {
                        assert(after[at as int] == before[at as int]);
                        assert forall|j: int|
                            0 <= j < after.len() && eligible(
                                (#[trigger] after[j])@,
                                *running,
                                name@,
                            ) implies !precedes(
                            after[at as int].version.plugin_version,
                            after[j].version.plugin_version,
                        ) by {
                            if j < i {
                                assert(after[j] == before[j]);
                            }
                        }
                        assert forall|j: int|
                            0 <= j < at && eligible(
                                (#[trigger] after[j])@,
                                *running,
                                name@,
                            ) implies precedes(
                            after[j].version.plugin_version,
                            after[at as int].version.plugin_version,
                        ) by {
                            assert(after[j] == before[j]);
                        }
                    }
                },
            }
        }
        i += 1;
    }
    assert(index@.take(i as int) =~= index@);
    best
}


// ---------------------------------------------------------------------------
// The stored form
// ---------------------------------------------------------------------------

/// The build that an entry of a stored index describes: an object with the
/// place `path` of the archive and the `metadata` of the plugin. `None` for
/// any other document.
pub open spec fn spec_candidate(doc: Seq<char>) -> Option<CandidateView> {
    match json_object(doc) {
        None => None,
        Some(members) => match lookup(members, "path"@) {
            None => None,
            Some(path) => match json_string(path) {
                None => None,
                Some(path) => match lookup(members, "metadata"@) {
                    None => None,
                    Some(metadata) => match spec_from_json(metadata) {
                        Err(_) => None,
                        Ok(metadata) => Some(
                            CandidateView { name: metadata.name, version: metadata.version, path },
                        ),
                    },
                },
            },
        },
    }
}

/// Every text of `items` describes a build.
pub open spec fn all_candidates(items: Seq<Seq<char>>) -> bool {
    forall|i: int| 0 <= i < items.len() ==> spec_candidate(#[trigger] items[i]) is Some
}

/// The builds that a stored index offers, in its order: the index is a JSON
/// array of entries. `None` for any other document, and where an entry
/// describes no build.
pub open spec fn spec_read_index(doc: Seq<char>) -> Option<Seq<CandidateView>> {
    match json_array(doc) {
        Some(items) => if all_candidates(items) {
            Some(items.map_values(|t: Seq<char>| spec_candidate(t)->0))
        } else {
            None
        },
        None => None,
    }
}

/// The views of `index`.
pub open spec fn index_view(index: Seq<Candidate>) -> Seq<CandidateView> {
    index.map_values(|c: Candidate| c@)
}

/// Reads an entry of a stored index.
pub fn read_candidate(doc: &str) -> (r: Option<Candidate>)
    ensures
        match r {
            Some(c) => spec_candidate(doc@) == Some(c@),
            None => spec_candidate(doc@) is None,
        },
{
    let members = match object_members(doc) {
        None => { return None; },
        Some(members) => members,
    };
    let path = match find(&members, "path") {
        None => { return None; },
        Some(path) => match string_text(path.as_str()) {
            None => { return None; },
            Some(path) => path,
        },
    };
    let metadata = match find(&members, "metadata") {
        None => { return None; },
        Some(metadata) => match Metadata::from_json(metadata.as_str()) {
            Err(_) => { return None; },
            Ok(metadata) => metadata,
        },
    };
    Some(Candidate { name: metadata.name, version: metadata.version, path })
}

/// Reads a stored index.
pub fn read_index(doc: &str) -> (r: Option<Vec<Candidate>>)
    ensures
        match r {
            Some(index) => spec_read_index(doc@) == Some(index_view(index@)),
            None => spec_read_index(doc@) is None,
        },
{
    let items = match array_items(doc) {
        None => { return None; },
        Some(items) => items,
    };
    let ghost all = views(items@);
    let mut index: Vec<Candidate> = Vec::new();
    let mut i: usize = 0;
    while i < items.len()
        invariant
            i <= items.len(),
            all == views(items@),
            json_array(doc@) == Some(all),
            index@.len() == i,
            forall|j: int| 0 <= j < i ==> spec_candidate(#[trigger] all[j]) == Some(index@[j]@),
        decreases items.len() - i,
    {
        assert(all[i as int] == items@[i as int]@);
        match read_candidate(items[i].as_str()) {
            None => { return None; },
            Some(candidate) => { index.push(candidate); },
        }
        i += 1;
    }
    assert(index_view(index@) =~= all.map_values(|t: Seq<char>| spec_candidate(t)->0));
    Some(index)
}

} // verus!
