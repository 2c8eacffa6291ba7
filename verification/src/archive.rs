//! The rpkg archive: a container with a metadata document, a bundle of
//! lifecycle scripts and the bundles of files that the plugin installs.

use crate::bundle::{relative_files, spec_relative_files, BundleError};
use crate::container::{entries_view, spec_read, Container, ContainerFault, ContainerView, Entry};
use crate::metadata::{spec_from_json, Metadata, MetadataError, MetadataView};
use crate::text::{
    ends_with, has_suffix, join_all, joined, lookup, same_text, utf8_text, views,
};
use vstd::prelude::*;
use vstd::utf8::{decode_utf8, valid_utf8};

verus! {

/// The name of the container member that holds the metadata document.
pub const METADATA_ENTRY: &'static str = "metadata";

/// The name of the bundle that holds the lifecycle scripts.
pub const SCRIPTS_BUNDLE: &'static str = "scripts.txz";

/// What the name of every bundle ends with.
pub const BUNDLE_SUFFIX: &'static str = ".txz";

/// The kinds of packages.
#[derive(Debug, Clone, Copy, PartialEq, Eq, Structural)]
pub enum PackageType {
    Plugin,
}

impl PackageType {
    /// The name of the kind, as documents spell it.
    pub fn name(&self) -> (r: &'static str)
        ensures
            r@ == "plugin"@,
    {
        match self {
            PackageType::Plugin => "plugin",
        }
    }
}

/// Why an archive could not be read.
#[derive(Debug, Clone, Copy, PartialEq, Eq, Structural)]
pub enum ArchiveError {
    /// The container could not be read to its end.
    Container(ContainerFault),
    /// The container holds no metadata document.
    NoMetadata,
    /// The metadata document is not UTF-8 text.
    MetadataEncoding,
    /// The metadata document was refused.
    Metadata(MetadataError),
    /// A bundle could not be read.
    Bundle(BundleError),
    /// The metadata names no destination for a bundle.
    Unmapped,
}

/// An archive that could not be opened, and why.
#[derive(Debug, Clone)]
pub struct RpkgError {
    pub path: String,
    pub cause: ArchiveError,
}

/// An opened archive.
#[derive(Debug, Clone)]
pub struct Rpkg {
    pub path: String,
    pub metadata: Metadata,
    pub container: Container,
}

/// An opened archive as plain values.
pub struct RpkgView {
    pub path: Seq<char>,
    pub metadata: MetadataView,
    pub container: ContainerView,
}

impl View for Rpkg {
    type V = RpkgView;

    open spec fn view(&self) -> RpkgView {
        RpkgView { path: self.path@, metadata: self.metadata@, container: self.container@ }
    }
}

// ---------------------------------------------------------------------------
// What an archive holds
// ---------------------------------------------------------------------------

/// The metadata that a container holds: that of the first member named
/// `metadata`. Without such a member the fault of the container is reported,
/// if it has one.
pub open spec fn spec_read_metadata(c: ContainerView) -> Result<MetadataView, ArchiveError> {
    match lookup(c.entries, METADATA_ENTRY@) {
        Some(data) => if !valid_utf8(data) {
            Err(ArchiveError::MetadataEncoding)
        } else {
            match spec_from_json(decode_utf8(data)) {
                Ok(metadata) => Ok(metadata),
                Err(e) => Err(ArchiveError::Metadata(e)),
            }
        },
        None => match c.fault {
            Some(fault) => Err(ArchiveError::Container(fault)),
            None => Err(ArchiveError::NoMetadata),
        },
    }
}

/// The archive that the bytes `archive` hold, or why they hold none.
pub open spec fn spec_open(path: Seq<char>, archive: Seq<u8>) -> Result<RpkgView, ArchiveError> {
    match spec_read_metadata(spec_read(archive)) {
        Ok(metadata) => Ok(RpkgView { path, metadata, container: spec_read(archive) }),
        Err(e) => Err(e),
    }
}

/// The names among `entries` that end with `.txz`, in order.
pub open spec fn bundle_names(entries: Seq<(Seq<char>, Seq<u8>)>) -> Seq<Seq<char>>
    decreases entries.len(),
{
    if entries.len() == 0 {
        Seq::empty()
    } else if has_suffix(entries.last().0, BUNDLE_SUFFIX@) {
        bundle_names(entries.drop_last()).push(entries.last().0)
    } else {
        bundle_names(entries.drop_last())
    }
}

/// The names of the bundles of a container, in file order; the fault of the
/// container, if it has one.
pub open spec fn spec_txz_list(c: ContainerView) -> Result<Seq<Seq<char>>, ArchiveError> {
    match c.fault {
        Some(fault) => Err(ArchiveError::Container(fault)),
        None => Ok(bundle_names(c.entries)),
    }
}

/// The directory that the bundle `name` is unpacked into: the scripts bundle
/// into the directory of the lifecycle scripts, any other where the metadata
/// says.
pub open spec fn spec_txz_dst(
    metadata: MetadataView,
    packages_folder: Seq<char>,
    name: Seq<char>,
) -> Result<Seq<char>, ArchiveError> {
    if name == SCRIPTS_BUNDLE@ {
        Ok(packages_folder)
    } else {
        match lookup(metadata.content, name) {
            Some(destination) => Ok(destination),
            None => Err(ArchiveError::Unmapped),
        }
    }
}

/// The paths listed by the members of `entries` that are named `name`, one
/// member after the other; the error of the first such member that cannot be
/// read.
pub open spec fn listed_files(entries: Seq<(Seq<char>, Seq<u8>)>, name: Seq<char>) -> Result<
    Seq<Seq<char>>,
    ArchiveError,
>
    decreases entries.len(),
{
    if entries.len() == 0 {
        Ok(Seq::empty())
    } else {
        match listed_files(entries.drop_last(), name) {
            Err(e) => Err(e),
            Ok(before) => if entries.last().0 != name {
                Ok(before)
            } else {
                match spec_relative_files(entries.last().1) {
                    Ok(paths) => Ok(before + paths),
                    Err(e) => Err(ArchiveError::Bundle(e)),
                }
            },
        }
    }
}

/// The paths of the files in the bundle `name`, relative to where it is
/// unpacked: none for a bundle that the container lacks.
pub open spec fn spec_relative_list(c: ContainerView, name: Seq<char>) -> Result<
    Seq<Seq<char>>,
    ArchiveError,
> {
    match listed_files(c.entries, name) {
        Err(e) => Err(e),
        Ok(paths) => match c.fault {
            Some(fault) => Err(ArchiveError::Container(fault)),
            None => Ok(paths),
        },
    }
}

/// The paths of the files in the bundle `name` once it is unpacked.
pub open spec fn spec_absolute_list(
    rpkg: RpkgView,
    packages_folder: Seq<char>,
    name: Seq<char>,
) -> Result<Seq<Seq<char>>, ArchiveError> {
    match spec_txz_dst(rpkg.metadata, packages_folder, name) {
        Err(e) => Err(e),
        Ok(destination) => match spec_relative_list(rpkg.container, name) {
            Err(e) => Err(e),
            Ok(paths) => Ok(paths.map_values(|p: Seq<char>| joined(destination, p))),
        },
    }
}

/// The paths of the files in the bundles `names` once they are unpacked, the
/// scripts bundle left out; the error of the first bundle that cannot be
/// listed.
pub open spec fn installed_files_of(
    rpkg: RpkgView,
    packages_folder: Seq<char>,
    names: Seq<Seq<char>>,
) -> Result<Seq<Seq<char>>, ArchiveError>
    decreases names.len(),
{
    if names.len() == 0 {
        Ok(Seq::empty())
    } else {
        match installed_files_of(rpkg, packages_folder, names.drop_last()) {
            Err(e) => Err(e),
            Ok(before) => if names.last() == SCRIPTS_BUNDLE@ {
                Ok(before)
            } else {
                match spec_absolute_list(rpkg, packages_folder, names.last()) {
                    Ok(paths) => Ok(before + paths),
                    Err(e) => Err(e),
                }
            },
        }
    }
}

/// The paths of all files that installing the archive puts on disk, bundle
/// after bundle in the order of the container.
pub open spec fn spec_installed_files(rpkg: RpkgView, packages_folder: Seq<char>) -> Result<
    Seq<Seq<char>>,
    ArchiveError,
> {
    match spec_txz_list(rpkg.container) {
        Err(e) => Err(e),
        Ok(names) => installed_files_of(rpkg, packages_folder, names),
    }
}

/// The data of the bundle `name`: that of the first member with this name;
/// `None` for a bundle that the container lacks.
pub open spec fn spec_embedded_txz(c: ContainerView, name: Seq<char>) -> Result<
    Option<Seq<u8>>,
    ArchiveError,
> {
    match lookup(c.entries, name) {
        Some(data) => Ok(Some(data)),
        None => match c.fault {
            Some(fault) => Err(ArchiveError::Container(fault)),
            None => Ok(None),
        },
    }
}

/// `out` is the list of texts `expected`, or the same error.
pub open spec fn gives(
    out: Result<Vec<String>, ArchiveError>,
    expected: Result<Seq<Seq<char>>, ArchiveError>,
) -> bool {
    match out {
        Ok(texts) => expected == Ok::<Seq<Seq<char>>, ArchiveError>(views(texts@)),
        Err(e) => expected == Err::<Seq<Seq<char>>, ArchiveError>(e),
    }
}

// ---------------------------------------------------------------------------
// Reading an archive
// ---------------------------------------------------------------------------

/// Finds the first member with the name `name`.
pub fn find_entry<'a>(entries: &'a Vec<Entry>, name: &str) -> (r: Option<&'a Entry>)
    ensures
        match r {
            Some(entry) => lookup(entries_view(entries@), name@) == Some(entry.data@),
            None => lookup(entries_view(entries@), name@) is None,
        },
{
    let ghost all = entries_view(entries@);
    let mut i: usize = 0;
    assert(all.skip(0) =~= all);
    while i < entries.len()
        invariant
            i <= entries.len(),
            all == entries_view(entries@),
            lookup(all, name@) == lookup(all.skip(i as int), name@),
        decreases entries.len() - i,
    {
        proof {
            assert(all.skip(i as int).drop_first() =~= all.skip(i + 1));
            assert(all.skip(i as int)[0] == (entries@[i as int].name@, entries@[i as int].data@));
        }
        if same_text(entries[i].name.as_str(), name) {
            return Some(&entries[i]);
        }
        i += 1;
    }
    None
}

/// Reads the metadata document of a container.
pub fn read_metadata(container: &Container) -> (r: Result<Metadata, ArchiveError>)
    ensures
        match r {
            Ok(metadata) => spec_read_metadata(container@) == Ok::<MetadataView, ArchiveError>(
                metadata@,
            ),
            Err(e) => spec_read_metadata(container@) == Err::<MetadataView, ArchiveError>(e),
        },
{
    match find_entry(&container.entries, METADATA_ENTRY) {
        Some(entry) => {
            let doc = match utf8_text(entry.data.as_slice()) {
                None => { return Err(ArchiveError::MetadataEncoding); },
                Some(doc) => doc,
            };
            match Metadata::from_json(doc) {
                Ok(metadata) => Ok(metadata),
                Err(e) => Err(ArchiveError::Metadata(e)),
            }
        },
        None => match container.fault {
            Some(fault) => Err(ArchiveError::Container(fault)),
            None => Err(ArchiveError::NoMetadata),
        },
    }
}

impl Rpkg {
    /// Opens the archive stored at `path`, whose bytes are `archive`.
    pub fn from_path(path: &str, archive: &[u8]) -> (r: Result<Rpkg, RpkgError>)
        ensures
            match r {
                Ok(rpkg) => spec_open(path@, archive@) == Ok::<RpkgView, ArchiveError>(rpkg@),
                Err(e) => spec_open(path@, archive@) == Err::<RpkgView, ArchiveError>(e.cause)
                    && e.path@ == path@,
            },
    {
        let container = Container::read(archive);
        match read_metadata(&container) {
            Ok(metadata) => Ok(Rpkg { path: path.to_owned(), metadata, container }),
            Err(cause) => Err(RpkgError { path: path.to_owned(), cause }),
        }
    }

    /// Resolves the directory that the bundle `txz_name` is unpacked into.
    pub fn get_txz_dst(&self, txz_name: &str, packages_folder: &str) -> (r: Result<
        String,
        ArchiveError,
    >)
        ensures
            match r {
                Ok(destination) => spec_txz_dst(self@.metadata, packages_folder@, txz_name@)
                    == Ok::<Seq<char>, ArchiveError>(destination@),
                Err(e) => spec_txz_dst(self@.metadata, packages_folder@, txz_name@) == Err::<
                    Seq<char>,
                    ArchiveError,
                >(e),
            },
    {
        if same_text(txz_name, SCRIPTS_BUNDLE) {
            return Ok(packages_folder.to_owned());
        }
        match crate::json::find(&self.metadata.content, txz_name) {
            Some(destination) => Ok(destination.clone()),
            None => Err(ArchiveError::Unmapped),
        }
    }

    /// Lists the names of the bundles, in the order of the container.
    pub fn get_txz_list(&self) -> (r: Result<Vec<String>, ArchiveError>)
        ensures
            gives(r, spec_txz_list(self@.container)),
    {
        if let Some(fault) = self.container.fault {
            return Err(ArchiveError::Container(fault));
        }
        let entries = &self.container.entries;
        let ghost all = entries_view(entries@);
        let mut names: Vec<String> = Vec::new();
        let mut i: usize = 0;
        while i < entries.len()
            invariant
                i <= entries.len(),
                all == entries_view(entries@),
                views(names@) == bundle_names(all.take(i as int)),
            decreases entries.len() - i,
        {
            proof {
                assert(all.take(i + 1).drop_last() =~= all.take(i as int));
                assert(all.take(i + 1).last() == (entries@[i as int].name@, entries@[i as int].data@));
            }
            if ends_with(entries[i].name.as_str(), BUNDLE_SUFFIX) {
                let ghost before = views(names@);
                names.push(entries[i].name.clone());
                assert(views(names@) =~= before.push(entries@[i as int].name@));
            }
            i += 1;
        }
        assert(all.take(i as int) =~= all);
        Ok(names)
    }

    /// Lists the paths of the files in the bundle `txz_name`, relative to
    /// where it is unpacked, in the order of the bundle.
    pub fn get_relative_file_list_of_txz(&self, txz_name: &str) -> (r: Result<
        Vec<String>,
        ArchiveError,
    >)
        ensures
            gives(r, spec_relative_list(self@.container, txz_name@)),
    {
        let entries = &self.container.entries;
        let ghost all = entries_view(entries@);
        let mut files: Vec<String> = Vec::new();
        let mut i: usize = 0;
        assert(views(files@) =~= Seq::empty());
        while i < entries.len()
            invariant
                i <= entries.len(),
                all == entries_view(entries@),
                all == self@.container.entries,
                listed_files(all.take(i as int), txz_name@) == Ok::<Seq<Seq<char>>, ArchiveError>(
                    views(files@),
                ),
            decreases entries.len() - i,
        {
            proof {
                assert(all.take(i + 1).drop_last() =~= all.take(i as int));
                assert(all.take(i + 1).last() == (entries@[i as int].name@, entries@[i as int].data@));
            }
            if same_text(entries[i].name.as_str(), txz_name) {
                match relative_files(entries[i].data.as_slice()) {
                    Err(e) => {
                        proof {
                            assert(listed_files(all.take(i + 1), txz_name@) == Err::<
                                Seq<Seq<char>>,
                                ArchiveError,
                            >(ArchiveError::Bundle(e)));
                            lemma_listed_files_fails(all, i + 1, txz_name@);
                        }
                        return Err(ArchiveError::Bundle(e));
                    },
                    Ok(mut paths) => {
                        let ghost before = views(files@);
                        let ghost added = views(paths@);
                        files.append(&mut paths);
                        assert(views(files@) =~= before + added);
                    },
                }
            }
            i += 1;
        }
        assert(all.take(i as int) =~= all);
        match self.container.fault {
            Some(fault) => Err(ArchiveError::Container(fault)),
            None => Ok(files),
        }
    }

    /// Lists the paths of the files in the bundle `txz_name` once it is
    /// unpacked.
    pub fn get_absolute_file_list_of_txz(&self, txz_name: &str, packages_folder: &str) -> (r:
        Result<Vec<String>, ArchiveError>)
        ensures
            gives(r, spec_absolute_list(self@, packages_folder@, txz_name@)),
    {
        let prefix = match self.get_txz_dst(txz_name, packages_folder) {
            Err(e) => { return Err(e); },
            Ok(prefix) => prefix,
        };
        let relative = match self.get_relative_file_list_of_txz(txz_name) {
            Err(e) => { return Err(e); },
            Ok(relative) => relative,
        };
        Ok(join_all(prefix.as_str(), &relative))
    }

    /// Lists the paths of all files that installing the archive puts on disk.
    pub fn get_archive_installed_files(&self, packages_folder: &str) -> (r: Result<
        Vec<String>,
        ArchiveError,
    >)
        ensures
            gives(r, spec_installed_files(self@, packages_folder@)),
    {
        let names = match self.get_txz_list() {
            Err(e) => { return Err(e); },
            Ok(names) => names,
        };
        let ghost all = views(names@);
        let mut files: Vec<String> = Vec::new();
        let mut i: usize = 0;
        assert(views(files@) =~= Seq::empty());
        while i < names.len()
            invariant
                i <= names.len(),
                all == views(names@),
                spec_txz_list(self@.container) == Ok::<Seq<Seq<char>>, ArchiveError>(all),
                installed_files_of(self@, packages_folder@, all.take(i as int)) == Ok::<
                    Seq<Seq<char>>,
                    ArchiveError,
                >(views(files@)),
            decreases names.len() - i,
        {
            proof {
                assert(all.take(i + 1).drop_last() =~= all.take(i as int));
                assert(all.take(i + 1).last() == names@[i as int]@);
            }
            if !same_text(names[i].as_str(), SCRIPTS_BUNDLE) {
                match self.get_absolute_file_list_of_txz(names[i].as_str(), packages_folder) {
                    Err(e) => {
                        proof {
                            assert(installed_files_of(self@, packages_folder@, all.take(i + 1))
                                == Err::<Seq<Seq<char>>, ArchiveError>(e));
                            lemma_installed_files_fails(self@, packages_folder@, all, i + 1);
                        }
                        return Err(e);
                    },
                    Ok(mut paths) => {
                        let ghost before = views(files@);
                        let ghost added = views(paths@);
                        files.append(&mut paths);
                        assert(views(files@) =~= before + added);
                    },
                }
            }
            i += 1;
        }
        assert(all.take(i as int) =~= all);
        Ok(files)
    }

    /// Finds the data of the bundle `txz_name`. A bundle that the container
    /// lacks is no error: there is nothing to unpack then.
    pub fn embedded_txz(&self, txz_name: &str) -> (r: Result<Option<&Vec<u8>>, ArchiveError>)
        ensures
            match r {
                Ok(Some(data)) => spec_embedded_txz(self@.container, txz_name@) == Ok::<
                    Option<Seq<u8>>,
                    ArchiveError,
                >(Some(data@)),
                Ok(None) => spec_embedded_txz(self@.container, txz_name@) == Ok::<
                    Option<Seq<u8>>,
                    ArchiveError,
                >(None),
                Err(e) => spec_embedded_txz(self@.container, txz_name@) == Err::<
                    Option<Seq<u8>>,
                    ArchiveError,
                >(e),
            },
    {
        match find_entry(&self.container.entries, txz_name) {
            Some(entry) => Ok(Some(&entry.data)),
            None => match self.container.fault {
                Some(fault) => Err(ArchiveError::Container(fault)),
                None => Ok(None),
            },
        }
    }
}

/// Once the listing of a bundle has failed at a member, it fails with the same
/// error however many members follow.
pub proof fn lemma_listed_files_fails(entries: Seq<(Seq<char>, Seq<u8>)>, upto: int, name: Seq<char>)
    requires
        0 <= upto <= entries.len(),
        listed_files(entries.take(upto), name) is Err,
    ensures
        listed_files(entries, name) == listed_files(entries.take(upto), name),
    decreases entries.len() - upto,
{
    if upto == entries.len() {
        assert(entries.take(upto) =~= entries);
    } else {
        assert(entries.take(upto + 1).drop_last() =~= entries.take(upto));
        lemma_listed_files_fails(entries, upto + 1, name);
    }
}

/// Once the listing of the installed files has failed at a bundle, it fails
/// with the same error however many bundles follow.
pub proof fn lemma_installed_files_fails(
    rpkg: RpkgView,
    packages_folder: Seq<char>,
    names: Seq<Seq<char>>,
    upto: int,
)
    requires
        0 <= upto <= names.len(),
        installed_files_of(rpkg, packages_folder, names.take(upto)) is Err,
    ensures
        installed_files_of(rpkg, packages_folder, names) == installed_files_of(
            rpkg,
            packages_folder,
            names.take(upto),
        ),
    decreases names.len() - upto,
{
    if upto == names.len() {
        assert(names.take(upto) =~= names);
    } else {
        assert(names.take(upto + 1).drop_last() =~= names.take(upto));
        lemma_installed_files_fails(rpkg, packages_folder, names, upto + 1);
    }
}

} // verus!
