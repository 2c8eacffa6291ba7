//! The database of installed plugins: for each plugin name the files that
//! belong to the plugin and its metadata.

use crate::json::{
    find, json_object, object_members, pairs, spec_member, spec_object,
    spec_string_list, spec_write_strings, string_list, write_member, write_object, write_strings,
};
use crate::metadata::{
    spec_from_json, spec_to_json, Metadata, MetadataError, MetadataView,
};
use crate::text::{lookup, same_text, views};
use vstd::prelude::*;

verus! {

/// What is recorded of an installed plugin.
#[derive(Debug, Clone, PartialEq, Eq)]
pub struct InstalledPlugin {
    /// The paths of the files that the installation wrote, in the order in
    /// which it wrote them.
    pub files: Vec<String>,
    pub metadata: Metadata,
}

/// The record of an installed plugin as plain values.
pub struct InstalledPluginView {
    pub files: Seq<Seq<char>>,
    pub metadata: MetadataView,
}

impl View for InstalledPlugin {
    type V = InstalledPluginView;

    open spec fn view(&self) -> InstalledPluginView {
        InstalledPluginView { files: views(self.files@), metadata: self.metadata@ }
    }
}

/// Why the database refused an operation.
#[derive(Debug, Clone, Copy, PartialEq, Eq, Structural)]
pub enum DatabaseError {
    /// No plugin of that name is recorded.
    NotInstalled,
    /// The stored database is not a JSON object.
    Document,
    /// The record of a plugin is not a JSON object.
    Record,
    /// The record of a plugin lacks the list of its files.
    Files,
    /// The record of a plugin lacks its metadata.
    NoMetadata,
    /// The metadata in the record of a plugin was refused.
    Metadata(MetadataError),
}

/// The installed plugins by name. No name is recorded twice.
#[derive(Debug, Clone, PartialEq, Eq)]
pub struct Database {
    plugins: Vec<(String, InstalledPlugin)>,
}

/// The names and records of `plugins` as plain values.
pub open spec fn records(plugins: Seq<(String, InstalledPlugin)>) -> Seq<
    (Seq<char>, InstalledPluginView),
> {
    plugins.map_values(|p: (String, InstalledPlugin)| (p.0@, p.1@))
}

/// No key occurs twice in `s`.
pub open spec fn keys_unique<V>(s: Seq<(Seq<char>, V)>) -> bool {
    forall|i: int, j: int| 0 <= i < j < s.len() ==> (#[trigger] s[i]).0 != (#[trigger] s[j]).0
}

/// `key` occurs in `s`.
pub open spec fn has_key<V>(s: Seq<(Seq<char>, V)>, key: Seq<char>) -> bool {
    exists|i: int| 0 <= i < s.len() && (#[trigger] s[i]).0 == key
}

/// The mapping that the pairs of `s` make up.
pub open spec fn to_map<V>(s: Seq<(Seq<char>, V)>) -> Map<Seq<char>, V>
    decreases s.len(),
{
    if s.len() == 0 {
        Map::empty()
    } else {
        to_map(s.drop_last()).insert(s.last().0, s.last().1)
    }
}

/// The mapping of `s` holds exactly the keys that occur in `s`.
pub proof fn lemma_to_map_keys<V>(s: Seq<(Seq<char>, V)>, key: Seq<char>)
    ensures
        to_map(s).contains_key(key) <==> has_key(s, key),
    decreases s.len(),
{
    if s.len() > 0 {
        let front = s.drop_last();
        lemma_to_map_keys(front, key);
        if has_key(front, key) {
            let i = choose|i: int| 0 <= i < front.len() && (#[trigger] front[i]).0 == key;
            assert(s[i].0 == key);
        }
        if has_key(s, key) {
            let i = choose|i: int| 0 <= i < s.len() && (#[trigger] s[i]).0 == key;
            if i < s.len() - 1 {
                assert(front[i].0 == key);
            }
        }
        if key == s.last().0 {
            assert(s[s.len() - 1].0 == key);
        }
    }
}

/// Where no key occurs twice, the mapping of `s` gives each key the value that
/// stands beside it.
pub proof fn lemma_to_map_value<V>(s: Seq<(Seq<char>, V)>, i: int)
    requires
        keys_unique(s),
        0 <= i < s.len(),
    ensures
        to_map(s).contains_key(s[i].0),
        to_map(s)[s[i].0] == s[i].1,
    decreases s.len(),
{
    let front = s.drop_last();
    if i < s.len() - 1 {
        assert(keys_unique(front)) by {
            assert forall|a: int, b: int| 0 <= a < b < front.len() implies (#[trigger] front[a]).0
                != (#[trigger] front[b]).0 by {
                assert(front[a] == s[a] && front[b] == s[b]);
            }
        }
        lemma_to_map_value(front, i);
        assert(front[i] == s[i]);
        assert(s[i].0 != s[s.len() - 1].0);
    }
}

/// Replacing the value beside a key replaces it in the mapping.
pub proof fn lemma_to_map_update<V>(s: Seq<(Seq<char>, V)>, i: int, value: V)
    requires
        keys_unique(s),
        0 <= i < s.len(),
    ensures
        keys_unique(s.update(i, (s[i].0, value))),
        to_map(s.update(i, (s[i].0, value))) == to_map(s).insert(s[i].0, value),
{
    let key = s[i].0;
    let t = s.update(i, (key, value));
    assert(keys_unique(t)) by {
        assert forall|a: int, b: int| 0 <= a < b < t.len() implies (#[trigger] t[a]).0 != (
        #[trigger] t[b]).0 by {
            assert(t[a].0 == s[a].0 && t[b].0 == s[b].0);
        }
    }
    assert forall|k: Seq<char>| to_map(t).contains_key(k) <==> to_map(s).insert(
        key,
        value,
    ).contains_key(k) by {
        lemma_to_map_keys(t, k);
        lemma_to_map_keys(s, k);
        if has_key(t, k) {
            let j = choose|j: int| 0 <= j < t.len() && (#[trigger] t[j]).0 == k;
            assert(s[j].0 == k);
        }
        if has_key(s, k) {
            let j = choose|j: int| 0 <= j < s.len() && (#[trigger] s[j]).0 == k;
            assert(t[j].0 == k);
        }
        if k == key {
            assert(t[i].0 == k);
        }
    }
    assert forall|k: Seq<char>| to_map(t).contains_key(k) implies to_map(t)[k] == to_map(
        s,
    ).insert(key, value)[k] by {
        lemma_to_map_keys(t, k);
        let j = choose|j: int| 0 <= j < t.len() && (#[trigger] t[j]).0 == k;
        lemma_to_map_value(t, j);
        if j != i {
            lemma_to_map_value(s, j);
            assert(t[j] == s[j]);
            assert(s[j].0 != s[i].0);
        }
    }
    assert(to_map(t) =~= to_map(s).insert(key, value));
}

/// Taking a pair out of `s` takes its key out of the mapping.
pub proof fn lemma_to_map_remove<V>(s: Seq<(Seq<char>, V)>, i: int)
    requires
        keys_unique(s),
        0 <= i < s.len(),
    ensures
        keys_unique(s.remove(i)),
        to_map(s.remove(i)) == to_map(s).remove(s[i].0),
{
    let key = s[i].0;
    let t = s.remove(i);
    assert forall|a: int| 0 <= a < t.len() implies #[trigger] t[a] == s[if a < i {
        a
    } else {
        a + 1
    }] by {}
    assert(keys_unique(t)) by {
        assert forall|a: int, b: int| 0 <= a < b < t.len() implies (#[trigger] t[a]).0 != (
        #[trigger] t[b]).0 by {
            let sa = if a < i {
                a
            } else {
                a + 1
            };
            let sb = if b < i {
                b
            } else {
                b + 1
            };
            assert(t[a] == s[sa] && t[b] == s[sb]);
        }
    }
    assert forall|k: Seq<char>| to_map(t).contains_key(k) <==> to_map(s).remove(key).contains_key(
        k,
    ) by {
        lemma_to_map_keys(t, k);
        lemma_to_map_keys(s, k);
        if has_key(t, k) {
            let j = choose|j: int| 0 <= j < t.len() && (#[trigger] t[j]).0 == k;
            let sj = if j < i {
                j
            } else {
                j + 1
            };
            assert(t[j] == s[sj]);
            assert(s[sj].0 == k);
            assert(s[sj].0 != s[i].0);
        }
        if has_key(s, k) && k != key {
            let j = choose|j: int| 0 <= j < s.len() && (#[trigger] s[j]).0 == k;
            let tj = if j < i {
                j
            } else {
                j - 1
            };
            assert(t[tj] == s[j]);
            assert(t[tj].0 == k);
        }
    }
    assert forall|k: Seq<char>| to_map(t).contains_key(k) implies to_map(t)[k] == to_map(
        s,
    ).remove(key)[k] by {
        lemma_to_map_keys(t, k);
        let j = choose|j: int| 0 <= j < t.len() && (#[trigger] t[j]).0 == k;
        let sj = if j < i {
            j
        } else {
            j + 1
        };
        assert(t[j] == s[sj]);
        lemma_to_map_value(t, j);
        lemma_to_map_value(s, sj);
        assert(s[sj].0 != s[i].0);
    }
    assert(to_map(t) =~= to_map(s).remove(key));
}

impl View for Database {
    type V = Map<Seq<char>, InstalledPluginView>;

    closed spec fn view(&self) -> Map<Seq<char>, InstalledPluginView> {
        to_map(records(self.plugins@))
    }
}

impl Database {
    /// No name is recorded twice.
    pub closed spec fn wf(&self) -> bool {
        keys_unique(records(self.plugins@))
    }

    /// The names of the installed plugins, in the order in which they were
    /// first recorded.
    pub closed spec fn listing(&self) -> Seq<Seq<char>> {
        records(self.plugins@).map_values(|r: (Seq<char>, InstalledPluginView)| r.0)
    }

    /// The names of `listing` are the names of the installed plugins, each
    /// once.
    pub proof fn lemma_listing(&self)
        requires
            self.wf(),
        ensures
            forall|name: Seq<char>| self@.contains_key(name) <==> self.listing().contains(name),
            self.listing().no_duplicates(),
    {
        let all = records(self.plugins@);
        let names = self.listing();
        assert forall|name: Seq<char>| self@.contains_key(name) <==> names.contains(name) by {
            lemma_to_map_keys(all, name);
            if has_key(all, name) {
                let i = choose|i: int| 0 <= i < all.len() && (#[trigger] all[i]).0 == name;
                assert(names[i] == name);
            }
            if names.contains(name) {
                let i = choose|i: int| 0 <= i < names.len() && names[i] == name;
                assert(all[i].0 == name);
            }
        }
        assert forall|i: int, j: int| 0 <= i < names.len() && 0 <= j < names.len() && i
            != j implies names[i] != names[j] by {
            assert(names[i] == all[i].0 && names[j] == all[j].0);
        }
    }

    /// The database without any plugin.
    pub fn new() -> (db: Database)
        ensures
            db.wf(),
            db@ == Map::<Seq<char>, InstalledPluginView>::empty(),
            db.listing() == Seq::<Seq<char>>::empty(),
    {
        let db = Database { plugins: Vec::new() };
        assert(db.listing() =~= Seq::<Seq<char>>::empty());
        db
    }

    /// Finds where `name` is recorded.
    fn position(&self, name: &str) -> (r: Option<usize>)
        ensures
            match r {
                Some(i) => i < self.plugins@.len() && self.plugins@[i as int].0@ == name@,
                None => !has_key(records(self.plugins@), name@),
            },
    {
        let mut i: usize = 0;
        while i < self.plugins.len()
            invariant
                i <= self.plugins@.len(),
                forall|j: int| 0 <= j < i ==> (#[trigger] records(self.plugins@)[j]).0 != name@,
            decreases self.plugins.len() - i,
        {
            assert(records(self.plugins@)[i as int].0 == self.plugins@[i as int].0@);
            if same_text(self.plugins[i].0.as_str(), name) {
                return Some(i);
            }
            i += 1;
        }
        None
    }

    /// Tells whether a plugin of that name is installed. The version plays no
    /// part.
    pub fn is_installed(&self, name: &str) -> (r: bool)
        ensures
            r == self@.contains_key(name@),
    {
        proof {
            lemma_to_map_keys(records(self.plugins@), name@);
        }
        match self.position(name) {
            Some(i) => {
                assert(records(self.plugins@)[i as int].0 == name@);
                true
            },
            None => false,
        }
    }

    /// Looks up the record of a plugin.
    pub fn get(&self, name: &str) -> (r: Option<&InstalledPlugin>)
        requires
            self.wf(),
        ensures
            match r {
                Some(record) => self@.contains_key(name@) && self@[name@] == record@,
                None => !self@.contains_key(name@),
            },
    {
        proof {
            lemma_to_map_keys(records(self.plugins@), name@);
        }
        match self.position(name) {
            Some(i) => {
                proof {
                    assert(records(self.plugins@)[i as int] == (
                        self.plugins@[i as int].0@,
                        self.plugins@[i as int].1@,
                    ));
                    lemma_to_map_value(records(self.plugins@), i as int);
                }
                Some(&self.plugins[i].1)
            },
            None => None,
        }
    }

    /// Records a plugin under `name`, in place of what was recorded under that
    /// name before.
    pub fn insert(&mut self, name: String, record: InstalledPlugin)
        requires
            old(self).wf(),
        ensures
            final(self).wf(),
            final(self)@ == old(self)@.insert(name@, record@),
            final(self).listing() == if old(self)@.contains_key(name@) {
                old(self).listing()
            } else {
                old(self).listing().push(name@)
            },
    {
        let ghost before = records(self.plugins@);
        proof {
            lemma_to_map_keys(before, name@);
        }
        match self.position(name.as_str()) {
            Some(i) => {
                proof {
                    assert(before[i as int].0 == name@);
                    lemma_to_map_update(before, i as int, record@);
                }
                self.plugins.set(i, (name, record));
                assert(records(self.plugins@) =~= before.update(i as int, (name@, record@)));
                assert(self.listing() =~= old(self).listing());
            },
            None => {
                self.plugins.push((name, record));
                let ghost after = records(self.plugins@);
                assert(after.drop_last() =~= before);
                assert(after.last() == (name@, record@));
                assert(self.listing() =~= old(self).listing().push(name@));
                assert(keys_unique(after)) by {
                    assert forall|a: int, b: int| 0 <= a < b < after.len() implies (
                    #[trigger] after[a]).0 != (#[trigger] after[b]).0 by {
                        assert(after[a] == before[a]);
                        if b < after.len() - 1 {
                            assert(after[b] == before[b]);
                        }
                    }
                }
            },
        }
    }

    /// Takes the record of a plugin out of the database. Where no plugin of
    /// that name is recorded, the database stays as it is.
    pub fn remove(&mut self, name: &str) -> (r: Result<InstalledPlugin, DatabaseError>)
        requires
            old(self).wf(),
        ensures
            final(self).wf(),
            match r {
                Ok(record) => old(self)@.contains_key(name@) && old(self)@[name@] == record@
                    && final(self)@ == old(self)@.remove(name@) && final(self).listing() == old(
                    self,
                ).listing().remove(old(self).listing().index_of(name@)),
                Err(e) => e == DatabaseError::NotInstalled && !old(self)@.contains_key(name@)
                    && final(self)@ == old(self)@ && final(self).listing() == old(self).listing(),
            },
    {
        let ghost before = records(self.plugins@);
        proof {
            lemma_to_map_keys(before, name@);
        }
        match self.position(name) {
            Some(i) => {
                proof {
                    assert(before[i as int] == (
                        self.plugins@[i as int].0@,
                        self.plugins@[i as int].1@,
                    ));
                    lemma_to_map_value(before, i as int);
                    lemma_to_map_remove(before, i as int);
                }
                let (_, record) = self.plugins.remove(i);
                assert(records(self.plugins@) =~= before.remove(i as int));
                proof {
                    let names = old(self).listing();
                    assert(names[i as int] == name@);
                    let k = names.index_of(name@);
                    assert(0 <= k < names.len() && names[k] == name@);
                    assert(before[k].0 == names[k]);
                    assert(k == i);
                    assert(self.listing() =~= names.remove(i as int));
                }
                Ok(record)
            },
            None => Err(DatabaseError::NotInstalled),
        }
    }

    /// Lists the names of the installed plugins.
    pub fn names(&self) -> (r: Vec<String>)
        ensures
            views(r@) == self.listing(),
    {
        let mut names: Vec<String> = Vec::new();
        let mut i: usize = 0;
        while i < self.plugins.len()
            invariant
                i <= self.plugins@.len(),
                names@.len() == i,
                forall|j: int| 0 <= j < i ==> (#[trigger] names@[j])@ == self.plugins@[j].0@,
            decreases self.plugins.len() - i,
        {
            names.push(self.plugins[i].0.clone());
            i += 1;
        }
        assert(views(names@) =~= self.listing());
        names
    }
}

// ---------------------------------------------------------------------------
// The stored form
// ---------------------------------------------------------------------------

/// The record that the JSON document `doc` holds: an object with the list
/// `files` and the metadata document `metadata`.
pub open spec fn spec_record_from_json(doc: Seq<char>) -> Result<
    InstalledPluginView,
    DatabaseError,
> {
    match json_object(doc) {
        None => Err(DatabaseError::Record),
        Some(members) => match lookup(members, "files"@) {
            None => Err(DatabaseError::Files),
            Some(files) => match spec_string_list(files) {
                None => Err(DatabaseError::Files),
                Some(files) => match lookup(members, "metadata"@) {
                    None => Err(DatabaseError::NoMetadata),
                    Some(metadata) => match spec_from_json(metadata) {
                        Err(e) => Err(DatabaseError::Metadata(e)),
                        Ok(metadata) => Ok(InstalledPluginView { files, metadata }),
                    },
                },
            },
        },
    }
}

/// The plugins that the members of a stored database record, a later member
/// in place of an earlier one of the same name; the error of the first member
/// that holds no record.
pub open spec fn spec_plugins_from(members: Seq<(Seq<char>, Seq<char>)>) -> Result<
    Map<Seq<char>, InstalledPluginView>,
    DatabaseError,
>
    decreases members.len(),
{
    if members.len() == 0 {
        Ok(Map::empty())
    } else {
        match spec_plugins_from(members.drop_last()) {
            Err(e) => Err(e),
            Ok(before) => match spec_record_from_json(members.last().1) {
                Err(e) => Err(e),
                Ok(record) => Ok(before.insert(members.last().0, record)),
            },
        }
    }
}

/// The names of the plugins that the members of a stored database record,
/// each once, in the order in which they first occur.
pub open spec fn spec_listing_from(members: Seq<(Seq<char>, Seq<char>)>) -> Seq<Seq<char>>
    decreases members.len(),
{
    if members.len() == 0 {
        Seq::empty()
    } else if spec_listing_from(members.drop_last()).contains(members.last().0) {
        spec_listing_from(members.drop_last())
    } else {
        spec_listing_from(members.drop_last()).push(members.last().0)
    }
}

/// The database that a stored document holds. Where nothing was stored yet,
/// no plugin is installed.
pub open spec fn spec_load(stored: Option<Seq<char>>) -> Result<
    Map<Seq<char>, InstalledPluginView>,
    DatabaseError,
> {
    match stored {
        None => Ok(Map::empty()),
        Some(doc) => match json_object(doc) {
            None => Err(DatabaseError::Document),
            Some(members) => spec_plugins_from(members),
        },
    }
}

/// The JSON document that holds the record `record`.
pub open spec fn spec_record_to_json(record: InstalledPluginView) -> Seq<char> {
    spec_object(
        seq![
            spec_member("files"@, spec_write_strings(record.files)),
            spec_member("metadata"@, spec_to_json(record.metadata)),
        ],
    )
}

/// Once the reading of a stored database has failed at a member, it fails with
/// the same error however many members follow.
pub proof fn lemma_plugins_from_fails(members: Seq<(Seq<char>, Seq<char>)>, upto: int)
    requires
        0 <= upto <= members.len(),
        spec_plugins_from(members.take(upto)) is Err,
    ensures
        spec_plugins_from(members) == spec_plugins_from(members.take(upto)),
    decreases members.len() - upto,
{
    if upto == members.len() {
        assert(members.take(upto) =~= members);
    } else {
        assert(members.take(upto + 1).drop_last() =~= members.take(upto));
        lemma_plugins_from_fails(members, upto + 1);
    }
}

impl InstalledPlugin {
    /// Reads a record from a JSON document.
    pub fn from_json(doc: &str) -> (r: Result<InstalledPlugin, DatabaseError>)
        ensures
            match r {
                Ok(record) => spec_record_from_json(doc@) == Ok::<
                    InstalledPluginView,
                    DatabaseError,
                >(record@),
                Err(e) => spec_record_from_json(doc@) == Err::<InstalledPluginView, DatabaseError>(
                    e,
                ),
            },
    {
        let members = match object_members(doc) {
            None => { return Err(DatabaseError::Record); },
            Some(members) => members,
        };
        let files = match find(&members, "files") {
            None => { return Err(DatabaseError::Files); },
            Some(files) => match string_list(files.as_str()) {
                None => { return Err(DatabaseError::Files); },
                Some(files) => files,
            },
        };
        let metadata = match find(&members, "metadata") {
            None => { return Err(DatabaseError::NoMetadata); },
            Some(metadata) => match Metadata::from_json(metadata.as_str()) {
                Err(e) => { return Err(DatabaseError::Metadata(e)); },
                Ok(metadata) => metadata,
            },
        };
        Ok(InstalledPlugin { files, metadata })
    }

    /// Writes the record as a JSON document.
    pub fn to_json(&self) -> (r: String)
        ensures
            r@ == spec_record_to_json(self@),
    {
        let mut members: Vec<String> = Vec::new();
        members.push(write_member("files", write_strings(&self.files).as_str()));
        members.push(write_member("metadata", self.metadata.to_json().as_str()));
        assert(views(members@) =~= seq![
            spec_member("files"@, spec_write_strings(self@.files)),
            spec_member("metadata"@, spec_to_json(self@.metadata)),
        ]);
        write_object(&members)
    }
}

impl Database {
    /// The JSON document that holds the database: an object with one member
    /// for each plugin, in the order of `listing`.
    pub closed spec fn stored(&self) -> Seq<char> {
        spec_object(
            records(self.plugins@).map_values(
                |r: (Seq<char>, InstalledPluginView)| spec_member(r.0, spec_record_to_json(r.1)),
            ),
        )
    }

    /// The stored form holds the plugins in the order of `listing`, each with
    /// its record.
    pub proof fn lemma_stored(&self)
        requires
            self.wf(),
        ensures
            self.stored() == spec_object(
                self.listing().map_values(
                    |name: Seq<char>| spec_member(name, spec_record_to_json(self@[name])),
                ),
            ),
            forall|i: int|
                0 <= i < self.listing().len() ==> self@.contains_key(#[trigger] self.listing()[i]),
    {
        let all = records(self.plugins@);
        assert forall|i: int| 0 <= i < all.len() implies self@.contains_key(all[i].0) && self@[all[i].0]
            == all[i].1 by {
            lemma_to_map_value(all, i);
        }
        assert(all.map_values(
            |r: (Seq<char>, InstalledPluginView)| spec_member(r.0, spec_record_to_json(r.1)),
        ) =~= self.listing().map_values(
            |name: Seq<char>| spec_member(name, spec_record_to_json(self@[name])),
        ));
    }

    /// Reads the database from what was stored. Where nothing was stored yet,
    /// no plugin is installed.
    pub fn load(stored: Option<&str>) -> (r: Result<Database, DatabaseError>)
        ensures
            match (r, stored) {
                (Ok(db), Some(doc)) => json_object(doc@) matches Some(members) && db.listing()
                    == spec_listing_from(members),
                (Ok(db), None) => db.listing() == Seq::<Seq<char>>::empty(),
                _ => true,
            },
            match r {
                Ok(db) => db.wf() && spec_load(
                    match stored {
                        Some(doc) => Some(doc@),
                        None => None,
                    },
                ) == Ok::<Map<Seq<char>, InstalledPluginView>, DatabaseError>(db@),
                Err(e) => spec_load(
                    match stored {
                        Some(doc) => Some(doc@),
                        None => None,
                    },
                ) == Err::<Map<Seq<char>, InstalledPluginView>, DatabaseError>(e),
            },
    {
        let mut db = Database::new();
        let doc = match stored {
            None => { return Ok(db); },
            Some(doc) => doc,
        };
        let members = match object_members(doc) {
            None => { return Err(DatabaseError::Document); },
            Some(members) => members,
        };
        let ghost all = pairs(members@);
        let mut i: usize = 0;
        assert(all.take(0) =~= Seq::<(Seq<char>, Seq<char>)>::empty());
        while i < members.len()
            invariant
                i <= members.len(),
                all == pairs(members@),
                json_object(doc@) == Some(all),
                stored == Some(doc),
                db.wf(),
                db.listing() == spec_listing_from(all.take(i as int)),
                spec_plugins_from(all.take(i as int)) == Ok::<
                    Map<Seq<char>, InstalledPluginView>,
                    DatabaseError,
                >(db@),
            decreases members.len() - i,
        {
            proof {
                assert(all.take(i + 1).drop_last() =~= all.take(i as int));
                assert(all.take(i + 1).last() == (members@[i as int].0@, members@[i as int].1@));
            }
            match InstalledPlugin::from_json(members[i].1.as_str()) {
                Err(e) => {
                    proof {
                        assert(spec_plugins_from(all.take(i + 1)) == Err::<
                            Map<Seq<char>, InstalledPluginView>,
                            DatabaseError,
                        >(e));
                        lemma_plugins_from_fails(all, i + 1);
                    }
                    return Err(e);
                },
                Ok(record) => {
                    proof {
                        db.lemma_listing();
                    }
                    db.insert(members[i].0.clone(), record);
                },
            }
            i += 1;
        }
        assert(all.take(i as int) =~= all);
        Ok(db)
    }

    /// Writes the database as a JSON document.
    pub fn store(&self) -> (r: String)
        ensures
            r@ == self.stored(),
    {
        let mut members: Vec<String> = Vec::new();
        let mut i: usize = 0;
        while i < self.plugins.len()
            invariant
                i <= self.plugins@.len(),
                members@.len() == i,
                forall|k: int|
                    0 <= k < i ==> (#[trigger] members@[k])@ == spec_member(
                        self.plugins@[k].0@,
                        spec_record_to_json(self.plugins@[k].1@),
                    ),
            decreases self.plugins.len() - i,
        {
            let record = self.plugins[i].1.to_json();
            members.push(write_member(self.plugins[i].0.as_str(), record.as_str()));
            i += 1;
        }
        assert(views(members@) =~= records(self.plugins@).map_values(
            |r: (Seq<char>, InstalledPluginView)| spec_member(r.0, spec_record_to_json(r.1)),
        ));
        write_object(&members)
    }
}

} // verus!
