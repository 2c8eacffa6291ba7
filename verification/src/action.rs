//! The operations on plugins as a whole: where the archive of a requested
//! plugin is taken from, the installation of an archive, and the
//! uninstallation of plugins by name.

use crate::archive::{spec_open, ArchiveError, Rpkg, RpkgView};
use crate::database::{Database, DatabaseError, InstalledPluginView};
use crate::lifecycle::{plan_view, spec_install, spec_uninstall, InstallError, Step, StepView};
use crate::repo_index::{get_compatible_plugin, is_best, eligible, Candidate};
use crate::text::{join_path, joined};
use crate::versions::{number_text, spec_number_text, RudderVersion};
use vstd::prelude::*;
use vstd::string::StringExecFns;

verus! {

/// Why a plugin was not installed.
#[derive(Debug, Clone, Copy, PartialEq, Eq, Structural)]
pub enum ActionError {
    /// The archive could not be opened.
    Archive(ArchiveError),
    /// The installation was refused.
    Refused(InstallError),
}

/// Where the archive of a requested plugin is taken from.
#[derive(Debug, Clone, PartialEq, Eq)]
pub enum Source {
    /// The request is the path of an archive on this machine.
    Local { path: String },
    /// The archive at `remote` in the repository is downloaded to `local`.
    Download { remote: String, local: String },
}

/// A source as plain values.
pub enum SourceView {
    Local { path: Seq<char> },
    Download { remote: Seq<char>, local: Seq<char> },
}

impl View for Source {
    type V = SourceView;

    open spec fn view(&self) -> SourceView {
        match self {
            Source::Local { path } => SourceView::Local { path: path@ },
            Source::Download { remote, local } => SourceView::Download {
                remote: remote@,
                local: local@,
            },
        }
    }
}

/// Why no archive was found for a request.
#[derive(Debug, Clone, Copy, PartialEq, Eq, Structural)]
pub enum LocateError {
    /// The repository offers no build of the plugin for the running host.
    NoCompatiblePlugin,
    /// The path of the build in the repository names no file.
    NoFileName,
}

/// The last component of `path`, as `std::path::Path::file_name` gives it;
/// `None` where the path ends in `..` or has no component.
pub uninterp spec fn path_file_name(path: Seq<char>) -> Option<Seq<char>>;

/// Takes the last component of a path with `std::path::Path::file_name`. The
/// contract names the outcome `path_file_name`.
#[verifier::external_body]
fn file_name(path: &str) -> (r: Option<String>)
    ensures
        match r {
            Some(name) => path_file_name(path@) == Some(name@),
            None => path_file_name(path@) is None,
        },
{
    match std::path::Path::new(path).file_name() {
        Some(name) => Some(name.to_string_lossy().into_owned()),
        None => None,
    }
}

/// Where a build that the repository keeps at `remote` is downloaded to.
pub open spec fn spec_download(remote: Seq<char>, tmp_folder: Seq<char>) -> Result<
    SourceView,
    LocateError,
> {
    match path_file_name(remote) {
        Some(name) => Ok(SourceView::Download { remote, local: joined(tmp_folder, name) }),
        None => Err(LocateError::NoFileName),
    }
}

/// `out` is the source `expected`, or the same error.
pub open spec fn locates(
    out: Result<Source, LocateError>,
    expected: Result<SourceView, LocateError>,
) -> bool {
    match out {
        Ok(source) => expected == Ok::<SourceView, LocateError>(source@),
        Err(e) => expected == Err::<SourceView, LocateError>(e),
    }
}

/// Decides where the archive of the request `package` is taken from: from the
/// path `package` if there is a file, and else from the repository, into the
/// download folder under its own file name.
pub fn locate(
    package: &str,
    exists: bool,
    index: &Vec<Candidate>,
    running: &RudderVersion,
    tmp_folder: &str,
) -> (r: Result<Source, LocateError>)
    ensures
        locates(r, spec_locate(package@, exists, index@, *running, tmp_folder@)),
{
    if exists {
        return Ok(Source::Local { path: package.to_owned() });
    }
    match get_compatible_plugin(index, running, package) {
        None => Err(LocateError::NoCompatiblePlugin),
        Some(at) => {
            proof {
                lemma_best_is_unique(index@, *running, package@, at as int);
            }
            let remote = index[at].path.clone();
            match file_name(remote.as_str()) {
                None => Err(LocateError::NoFileName),
                Some(name) => {
                    let local = join_path(tmp_folder, name.as_str());
                    Ok(Source::Download { remote, local })
                },
            }
        },
    }
}

/// Where the archive of the request `package` is taken from.
pub open spec fn spec_locate(
    package: Seq<char>,
    exists: bool,
    index: Seq<Candidate>,
    running: RudderVersion,
    tmp_folder: Seq<char>,
) -> Result<SourceView, LocateError> {
    if exists {
        Ok(SourceView::Local { path: package })
    } else {
        match get_compatible_plugin_spec(index, running, package) {
            Some(at) => spec_download(index[at].path@, tmp_folder),
            None => Err(LocateError::NoCompatiblePlugin),
        }
    }
}

/// The position of the build to install, if any build is eligible.
pub open spec fn get_compatible_plugin_spec(
    index: Seq<Candidate>,
    running: RudderVersion,
    name: Seq<char>,
) -> Option<int> {
    if exists|at: int| is_best(index, running, name, at) {
        Some(choose|at: int| is_best(index, running, name, at))
    } else {
        None
    }
}

/// There is one build to install at most.
pub proof fn lemma_best_is_unique(
    index: Seq<Candidate>,
    running: RudderVersion,
    name: Seq<char>,
    at: int,
)
    requires
        is_best(index, running, name, at),
    ensures
        get_compatible_plugin_spec(index, running, name) == Some(at),
        forall|other: int| is_best(index, running, name, other) ==> other == at,
{
    assert forall|other: int| is_best(index, running, name, other) implies other == at by {
        if other < at {
            assert(eligible(index[other]@, running, name));
        } else if at < other {
            assert(eligible(index[at]@, running, name));
        }
    }
}

/// The archive that the bytes `archive` hold and the steps of its
/// installation; or why the archive cannot be opened, or why its installation
/// is refused.
pub open spec fn spec_action_install(
    force: bool,
    path: Seq<char>,
    archive: Seq<u8>,
    running: RudderVersion,
    db: Map<Seq<char>, InstalledPluginView>,
    packages_folder: Seq<char>,
) -> Result<(RpkgView, Seq<StepView>), ActionError> {
    match spec_open(path, archive) {
        Err(e) => Err(ActionError::Archive(e)),
        Ok(rpkg) => match spec_install(rpkg.metadata, force, running, db, packages_folder) {
            Err(e) => Err(ActionError::Refused(e)),
            Ok(steps) => Ok((rpkg, steps)),
        },
    }
}

/// Opens the archive stored at `path` and plans its installation on the host
/// `running` with the plugins of `db` installed. Nothing is changed: an
/// archive that cannot be opened, or whose installation is refused, leaves no
/// step to perform.
pub fn install(
    force: bool,
    path: &str,
    archive: &[u8],
    running: &RudderVersion,
    db: &Database,
    packages_folder: &str,
) -> (r: Result<(Rpkg, Vec<Step>), ActionError>)
    ensures
        match r {
            Ok((rpkg, steps)) => spec_action_install(
                force,
                path@,
                archive@,
                *running,
                db@,
                packages_folder@,
            ) == Ok::<(RpkgView, Seq<StepView>), ActionError>((rpkg@, plan_view(steps@))),
            Err(e) => spec_action_install(
                force,
                path@,
                archive@,
                *running,
                db@,
                packages_folder@,
            ) == Err::<(RpkgView, Seq<StepView>), ActionError>(e),
        },
{
    let rpkg = match Rpkg::from_path(path, archive) {
        Err(e) => { return Err(ActionError::Archive(e.cause)); },
        Ok(rpkg) => rpkg,
    };
    match rpkg.install(force, running, db, packages_folder) {
        Err(e) => Err(ActionError::Refused(e)),
        Ok(steps) => Ok((rpkg, steps)),
    }
}

/// `out` is the plan `expected`, or the same error.
pub open spec fn plans(
    out: Result<Vec<Step>, DatabaseError>,
    expected: Result<Seq<StepView>, DatabaseError>,
) -> bool {
    match out {
        Ok(steps) => expected == Ok::<Seq<StepView>, DatabaseError>(plan_view(steps@)),
        Err(e) => expected == Err::<Seq<StepView>, DatabaseError>(e),
    }
}

/// Plans the uninstallation of each of `packages`, one independently of the
/// others: a name that is not installed is refused and the others are planned
/// all the same. Nothing is changed.
pub fn uninstall(packages: &Vec<String>, db: &Database, packages_folder: &str) -> (r: Vec<
    Result<Vec<Step>, DatabaseError>,
>)
    requires
        db.wf(),
    ensures
        r@.len() == packages@.len(),
        forall|i: int|
            0 <= i < packages@.len() ==> plans(
                #[trigger] r@[i],
                spec_uninstall(db@, packages@[i]@, packages_folder@),
            ),
{
    let mut outcomes: Vec<Result<Vec<Step>, DatabaseError>> = Vec::new();
    let mut i: usize = 0;
    while i < packages.len()
        invariant
            i <= packages.len(),
            db.wf(),
            outcomes@.len() == i,
            forall|j: int|
                0 <= j < i ==> plans(
                    #[trigger] outcomes@[j],
                    spec_uninstall(db@, packages@[j]@, packages_folder@),
                ),
        decreases packages.len() - i,
    {
        outcomes.push(db.uninstall(packages[i].as_str(), packages_folder));
        i += 1;
    }
    outcomes
}

// ---------------------------------------------------------------------------
// Keeping the repository index and the licenses up to date
// ---------------------------------------------------------------------------

/// The directory that license files are kept in.
pub const LICENSES_FOLDER: &'static str = "/opt/rudder/etc/plugins/licenses";

/// A file to fetch from the repository.
#[derive(Debug, Clone, PartialEq, Eq)]
pub struct Fetch {
    /// Where the repository keeps the file.
    pub remote: String,
    /// Where the file is put on this machine.
    pub local: String,
    /// The directory that the file, a compressed tar stream, is unpacked into
    /// once it is there.
    pub unpack_into: Option<String>,
}

/// A file to fetch as plain values.
pub struct FetchView {
    pub remote: Seq<char>,
    pub local: Seq<char>,
    pub unpack_into: Option<Seq<char>>,
}

impl View for Fetch {
    type V = FetchView;

    open spec fn view(&self) -> FetchView {
        FetchView {
            remote: self.remote@,
            local: self.local@,
            unpack_into: match self.unpack_into {
                Some(folder) => Some(folder@),
                None => None,
            },
        }
    }
}

/// Where the repository keeps the index for the line of the host `running`.
pub open spec fn spec_index_remote(running: RudderVersion) -> Seq<char> {
    spec_number_text(running.major) + "."@ + spec_number_text(running.minor) + "/rpkg.index"@
}

/// The name of the file that holds the licenses of the user `user`.
pub open spec fn spec_license_archive(user: Seq<char>) -> Seq<char> {
    user + "-license.tar.gz"@
}

/// Where the repository keeps the licenses of the user `user`.
pub open spec fn spec_license_remote(user: Seq<char>) -> Seq<char> {
    "licences/"@ + user + "/"@ + spec_license_archive(user)
}

/// The files that an update fetches: the index for the line of the running
/// host and, for a user of the repository, the licenses of that user.
pub open spec fn spec_update(
    running: RudderVersion,
    user: Option<Seq<char>>,
    index_path: Seq<char>,
    licenses_folder: Seq<char>,
) -> Seq<FetchView> {
    seq![
        FetchView { remote: spec_index_remote(running), local: index_path, unpack_into: None },
    ] + match user {
        Some(user) => seq![
            FetchView {
                remote: spec_license_remote(user),
                local: joined(licenses_folder, spec_license_archive(user)),
                unpack_into: Some(licenses_folder),
            },
        ],
        None => Seq::empty(),
    }
}

/// Plans an update: what is fetched from the repository, and where it goes.
pub fn update(
    running: &RudderVersion,
    user: Option<&str>,
    index_path: &str,
    licenses_folder: &str,
) -> (r: Vec<Fetch>)
    ensures
        r@.map_values(|f: Fetch| f@) == spec_update(
            *running,
            match user {
                Some(u) => Some(u@),
                None => None,
            },
            index_path@,
            licenses_folder@,
        ),
{
    let mut remote = number_text(running.major);
    remote.append(".");
    remote.append(number_text(running.minor).as_str());
    remote.append("/rpkg.index");
    let mut fetches: Vec<Fetch> = Vec::new();
    fetches.push(Fetch { remote, local: index_path.to_owned(), unpack_into: None });
    if let Some(user) = user {
        let mut archive = user.to_owned();
        archive.append("-license.tar.gz");
        let mut remote = "licences/".to_owned();
        remote.append(user);
        remote.append("/");
        remote.append(archive.as_str());
        let local = join_path(licenses_folder, archive.as_str());
        fetches.push(Fetch { remote, local, unpack_into: Some(licenses_folder.to_owned()) });
    }
    assert(fetches@.map_values(|f: Fetch| f@) =~= spec_update(
        *running,
        match user {
            Some(u) => Some(u@),
            None => None,
        },
        index_path@,
        licenses_folder@,
    ));
    fetches
}

} // verus!
