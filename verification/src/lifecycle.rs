//! The install and uninstall lifecycle. The library decides what is done and
//! in which order; its caller performs each step and reports how it went, and
//! the library decides whether the operation goes on. An operation that is
//! given up leaves what it has done so far: nothing is rolled back.

use crate::archive::{spec_installed_files, spec_txz_dst, ArchiveError, Rpkg, SCRIPTS_BUNDLE};
use crate::database::{Database, DatabaseError, InstalledPlugin, InstalledPluginView};
use crate::metadata::MetadataView;
use crate::text::{join_path, joined, lookup, views};
use crate::versions::RudderVersion;
use vstd::prelude::*;

verus! {

/// The lifecycle scripts that a plugin may bring.
#[derive(Debug, Clone, Copy, PartialEq, Eq, Structural)]
pub enum PackageScript {
    Postinst,
    Postrm,
    Preinst,
    Prerm,
}

impl PackageScript {
    /// The file name of the script.
    pub open spec fn spec_name(self) -> Seq<char> {
        match self {
            PackageScript::Postinst => "postinst"@,
            PackageScript::Postrm => "postrm"@,
            PackageScript::Preinst => "preinst"@,
            PackageScript::Prerm => "prerm"@,
        }
    }

    /// The file name of the script.
    pub fn name(&self) -> (r: &'static str)
        ensures
            r@ == self.spec_name(),
    {
        match self {
            PackageScript::Postinst => "postinst",
            PackageScript::Postrm => "postrm",
            PackageScript::Preinst => "preinst",
            PackageScript::Prerm => "prerm",
        }
    }
}

/// The one argument that a lifecycle script is run with.
#[derive(Debug, Clone, Copy, PartialEq, Eq, Structural)]
pub enum PackageScriptArg {
    Install,
    Upgrade,
    /// The empty text.
    Empty,
}

impl PackageScriptArg {
    /// The argument as the script receives it.
    pub open spec fn spec_text(self) -> Seq<char> {
        match self {
            PackageScriptArg::Install => "install"@,
            PackageScriptArg::Upgrade => "upgrade"@,
            PackageScriptArg::Empty => ""@,
        }
    }

    /// The argument as the script receives it.
    pub fn text(&self) -> (r: &'static str)
        ensures
            r@ == self.spec_text(),
    {
        match self {
            PackageScriptArg::Install => "install",
            PackageScriptArg::Upgrade => "upgrade",
            PackageScriptArg::Empty => "",
        }
    }
}

/// One step of an operation, for the caller to perform.
#[derive(Debug, Clone, PartialEq, Eq)]
pub enum Step {
    /// Unpack the bundle into the directory, creating the directories above
    /// it first. A bundle that the archive lacks is left out without error.
    Extract { bundle: String, destination: String },
    /// Run the script at `path` with the argument, if such a file exists.
    RunScript { script: PackageScript, argument: PackageScriptArg, path: String },
    /// List the installed files of the archive, record the plugin in the
    /// database under its name and write the database. The database is read,
    /// changed and written without a lock: of two operations that do so at
    /// the same time, one may lose what the other recorded.
    Record,
    /// Tell the host to load the resource.
    EnableJar { path: String },
    /// Remove the file, if it is there.
    RemoveFile { path: String },
    /// Take the plugin out of the database and write the database.
    Forget { name: String },
}

/// A step as plain values.
pub enum StepView {
    Extract { bundle: Seq<char>, destination: Seq<char> },
    RunScript { script: PackageScript, argument: PackageScriptArg, path: Seq<char> },
    Record,
    EnableJar { path: Seq<char> },
    RemoveFile { path: Seq<char> },
    Forget { name: Seq<char> },
}

impl View for Step {
    type V = StepView;

    open spec fn view(&self) -> StepView {
        match self {
            Step::Extract { bundle, destination } => StepView::Extract {
                bundle: bundle@,
                destination: destination@,
            },
            Step::RunScript { script, argument, path } => StepView::RunScript {
                script: *script,
                argument: *argument,
                path: path@,
            },
            Step::Record => StepView::Record,
            Step::EnableJar { path } => StepView::EnableJar { path: path@ },
            Step::RemoveFile { path } => StepView::RemoveFile { path: path@ },
            Step::Forget { name } => StepView::Forget { name: name@ },
        }
    }
}

/// The views of `steps`.
pub open spec fn plan_view(steps: Seq<Step>) -> Seq<StepView> {
    steps.map_values(|s: Step| s@)
}

/// Why an installation was not begun.
#[derive(Debug, Clone, Copy, PartialEq, Eq, Structural)]
pub enum InstallError {
    /// The plugin was built for another line of the host than the running
    /// one.
    Incompatible { built_for: RudderVersion, running: RudderVersion },
    /// A plugin that this one depends on is not installed.
    MissingDependencies,
}

// ---------------------------------------------------------------------------
// What an operation consists of
// ---------------------------------------------------------------------------

/// Where the lifecycle script `script` of the plugin `plugin` is kept.
pub open spec fn spec_script_path(
    packages_folder: Seq<char>,
    plugin: Seq<char>,
    script: PackageScript,
) -> Seq<char> {
    joined(joined(packages_folder, plugin), script.spec_name())
}

/// The step that runs a lifecycle script of the plugin `plugin`.
pub open spec fn script_step(
    packages_folder: Seq<char>,
    plugin: Seq<char>,
    script: PackageScript,
    argument: PackageScriptArg,
) -> StepView {
    StepView::RunScript {
        script,
        argument,
        path: spec_script_path(packages_folder, plugin, script),
    }
}

/// The directory that a bundle named in the metadata is unpacked into.
pub open spec fn destination_of(
    metadata: MetadataView,
    packages_folder: Seq<char>,
    bundle: Seq<char>,
) -> Seq<char> {
    match spec_txz_dst(metadata, packages_folder, bundle) {
        Ok(destination) => destination,
        Err(_) => Seq::empty(),
    }
}

/// The steps that unpack the bundles named in the metadata, in the order of
/// the metadata.
pub open spec fn extraction_steps(metadata: MetadataView, packages_folder: Seq<char>) -> Seq<
    StepView,
> {
    Seq::new(
        metadata.content.len(),
        |i: int|
            StepView::Extract {
                bundle: metadata.content[i].0,
                destination: destination_of(metadata, packages_folder, metadata.content[i].0),
            },
    )
}

/// The steps that tell the host to load the resources of the plugin.
pub open spec fn jar_steps(metadata: MetadataView) -> Seq<StepView> {
    match metadata.jar_files {
        Some(jars) => Seq::new(jars.len(), |i: int| StepView::EnableJar { path: jars[i] }),
        None => Seq::empty(),
    }
}

/// The steps of an installation, in order: unpack the scripts, run `preinst`,
/// unpack each bundle, record the plugin, run `postinst`, enable the
/// resources. The scripts are run with the argument `install`, also where a
/// plugin of that name is installed already and is replaced.
pub open spec fn install_steps(metadata: MetadataView, packages_folder: Seq<char>) -> Seq<
    StepView,
> {
    seq![
        StepView::Extract { bundle: SCRIPTS_BUNDLE@, destination: packages_folder },
        script_step(
            packages_folder,
            metadata.name,
            PackageScript::Preinst,
            PackageScriptArg::Install,
        ),
    ] + extraction_steps(metadata, packages_folder) + seq![
        StepView::Record,
        script_step(
            packages_folder,
            metadata.name,
            PackageScript::Postinst,
            PackageScriptArg::Install,
        ),
    ] + jar_steps(metadata)
}

/// Every plugin of `names` is in the database.
pub open spec fn all_installed(
    names: Seq<Seq<char>>,
    db: Map<Seq<char>, InstalledPluginView>,
) -> bool {
    forall|i: int| 0 <= i < names.len() ==> db.contains_key(#[trigger] names[i])
}

/// Every plugin that `depends` names is in the database.
pub open spec fn dependencies_met(
    depends: Option<Seq<Seq<char>>>,
    db: Map<Seq<char>, InstalledPluginView>,
) -> bool {
    match depends {
        Some(names) => all_installed(names, db),
        None => true,
    }
}

/// What installing an archive consists of. Unless it is forced, the
/// installation is refused where the plugin was built for another line of the
/// host than the running one, and where a plugin that it depends on is not
/// installed.
pub open spec fn spec_install(
    metadata: MetadataView,
    force: bool,
    running: RudderVersion,
    db: Map<Seq<char>, InstalledPluginView>,
    packages_folder: Seq<char>,
) -> Result<Seq<StepView>, InstallError> {
    let built_for = metadata.version.rudder_version;
    if !force && !built_for.compatible_with(running) {
        Err(InstallError::Incompatible { built_for, running })
    } else if !force && !dependencies_met(metadata.depends, db) {
        Err(InstallError::MissingDependencies)
    } else {
        Ok(install_steps(metadata, packages_folder))
    }
}

/// The steps of the uninstallation of a recorded plugin, in order: run
/// `prerm`, remove each file of the record, run `postrm`, forget the plugin.
pub open spec fn uninstall_steps(
    record: InstalledPluginView,
    name: Seq<char>,
    packages_folder: Seq<char>,
) -> Seq<StepView> {
    seq![script_step(packages_folder, name, PackageScript::Prerm, PackageScriptArg::Empty)]
        + Seq::new(record.files.len(), |i: int| StepView::RemoveFile { path: record.files[i] })
        + seq![
        script_step(packages_folder, name, PackageScript::Postrm, PackageScriptArg::Empty),
        StepView::Forget { name },
    ]
}

/// What uninstalling the plugin `name` consists of; refused where no plugin of
/// that name is installed.
pub open spec fn spec_uninstall(
    db: Map<Seq<char>, InstalledPluginView>,
    name: Seq<char>,
    packages_folder: Seq<char>,
) -> Result<Seq<StepView>, DatabaseError> {
    if db.contains_key(name) {
        Ok(uninstall_steps(db[name], name, packages_folder))
    } else {
        Err(DatabaseError::NotInstalled)
    }
}

/// A key of a list of pairs is found in the list.
pub proof fn lemma_lookup_finds<V>(pairs: Seq<(Seq<char>, V)>, i: int)
    requires
        0 <= i < pairs.len(),
    ensures
        lookup(pairs, pairs[i].0) is Some,
    decreases pairs.len(),
{
    if pairs[0].0 != pairs[i].0 {
        let rest = pairs.drop_first();
        assert(rest[i - 1] == pairs[i]);
        lemma_lookup_finds(rest, i - 1);
    }
}

// ---------------------------------------------------------------------------
// Planning
// ---------------------------------------------------------------------------

/// Works out where a lifecycle script of a plugin is kept.
pub fn script_path(packages_folder: &str, plugin: &str, script: PackageScript) -> (r: String)
    ensures
        r@ == spec_script_path(packages_folder@, plugin@, script),
{
    let folder = join_path(packages_folder, plugin);
    join_path(folder.as_str(), script.name())
}

/// Makes the step that runs a lifecycle script of a plugin.
fn run_script(
    packages_folder: &str,
    plugin: &str,
    script: PackageScript,
    argument: PackageScriptArg,
) -> (r: Step)
    ensures
        r@ == script_step(packages_folder@, plugin@, script, argument),
{
    Step::RunScript { script, argument, path: script_path(packages_folder, plugin, script) }
}

impl Rpkg {
    /// Tells whether a plugin of the name of this archive is installed.
    pub fn is_installed(&self, db: &Database) -> (r: bool)
        ensures
            r == db@.contains_key(self@.metadata.name),
    {
        db.is_installed(self.metadata.name.as_str())
    }

    /// Tells whether every plugin that this one depends on is installed.
    pub fn dependencies_installed(&self, db: &Database) -> (r: bool)
        ensures
            r == dependencies_met(self@.metadata.depends, db@),
    {
        match &self.metadata.depends {
            None => true,
            Some(names) => {
                let ghost all = views(names@);
                let mut i: usize = 0;
                assert(self.metadata.depends == Some(*names));
                assert(self@.metadata.depends == Some(all));
                while i < names.len()
                    invariant
                        i <= names.len(),
                        all == views(names@),
                        self@.metadata.depends == Some(all),
                        forall|j: int| 0 <= j < i ==> db@.contains_key(#[trigger] all[j]),
                    decreases names.len() - i,
                {
                    assert(all[i as int] == names@[i as int]@);
                    if !db.is_installed(names[i].as_str()) {
                        assert(0 <= i < all.len() && !db@.contains_key(all[i as int]));
                        assert(!all_installed(all, db@));
                        return false;
                    }
                    i += 1;
                }
                true
            },
        }
    }

    /// Plans the installation of this archive on the host `running` with the
    /// plugins of `db` installed. Nothing is changed; the steps are for the
    /// caller to perform in order, up to the first one that fails.
    pub fn install(
        &self,
        force: bool,
        running: &RudderVersion,
        db: &Database,
        packages_folder: &str,
    ) -> (r: Result<Vec<Step>, InstallError>)
        ensures
            match r {
                Ok(steps) => spec_install(
                    self@.metadata,
                    force,
                    *running,
                    db@,
                    packages_folder@,
                ) == Ok::<Seq<StepView>, InstallError>(plan_view(steps@)),
                Err(e) => spec_install(self@.metadata, force, *running, db@, packages_folder@)
                    == Err::<Seq<StepView>, InstallError>(e),
            },
            !force && !self@.metadata.version.rudder_version.compatible_with(*running) ==> r is Err,
    {
        let built_for = self.metadata.version.rudder_version;
        if !force && !built_for.is_compatible(running) {
            return Err(InstallError::Incompatible { built_for, running: *running });
        }
        if !force && !self.dependencies_installed(db) {
            return Err(InstallError::MissingDependencies);
        }
        let ghost metadata = self@.metadata;
        let ghost folder = packages_folder@;
        let name = self.metadata.name.as_str();
        let mut steps: Vec<Step> = Vec::new();
        steps.push(
            Step::Extract {
                bundle: SCRIPTS_BUNDLE.to_owned(),
                destination: packages_folder.to_owned(),
            },
        );
        steps.push(
            run_script(packages_folder, name, PackageScript::Preinst, PackageScriptArg::Install),
        );
        let content = &self.metadata.content;
        let mut i: usize = 0;
        while i < content.len()
            invariant
                i <= content.len(),
                content == &self.metadata.content,
                metadata == self@.metadata,
                folder == packages_folder@,
                steps@.len() == 2 + i,
                steps@[0]@ == install_steps(metadata, folder)[0],
                steps@[1]@ == install_steps(metadata, folder)[1],
                forall|j: int|
                    0 <= j < i ==> (#[trigger] steps@[2 + j])@ == extraction_steps(
                        metadata,
                        folder,
                    )[j],
            decreases content.len() - i,
        {
            proof {
                assert(metadata.content[i as int] == (content@[i as int].0@, content@[i as int].1@));
                lemma_lookup_finds(metadata.content, i as int);
            }
            let bundle = content[i].0.clone();
            let destination = match self.get_txz_dst(bundle.as_str(), packages_folder) {
                Ok(destination) => destination,
                Err(_) => {
                    // A bundle that the metadata names has a destination there.
                    assert(false);
                    String::new()
                },
            };
            steps.push(Step::Extract { bundle, destination });
            i += 1;
        }
        steps.push(Step::Record);
        steps.push(
            run_script(packages_folder, name, PackageScript::Postinst, PackageScriptArg::Install),
        );
        let ghost fixed = steps@;
        proof {
            let n = metadata.content.len() as int;
            assert(fixed.len() == 4 + n);
            assert(fixed[0]@ == install_steps(metadata, folder)[0]);
            assert(fixed[1]@ == install_steps(metadata, folder)[1]);
            assert(fixed[2 + n]@ == StepView::Record);
            assert(fixed[3 + n]@ == script_step(
                folder,
                metadata.name,
                PackageScript::Postinst,
                PackageScriptArg::Install,
            ));
            assert forall|j: int| 0 <= j < n implies (#[trigger] fixed[2 + j])@
                == extraction_steps(metadata, folder)[j] by {}
        }
        if let Some(jars) = &self.metadata.jar_files {
            let mut k: usize = 0;
            while k < jars.len()
                invariant
                    k <= jars.len(),
                    metadata == self@.metadata,
                    metadata.jar_files == Some(views(jars@)),
                    steps@.len() == fixed.len() + k,
                    forall|j: int| 0 <= j < fixed.len() ==> steps@[j] == fixed[j],
                    forall|j: int|
                        0 <= j < k ==> (#[trigger] steps@[fixed.len() + j])@ == jar_steps(
                            metadata,
                        )[j],
                decreases jars.len() - k,
            {
                assert(views(jars@)[k as int] == jars@[k as int]@);
                steps.push(Step::EnableJar { path: jars[k].clone() });
                k += 1;
            }
        }
        proof {
            let plan = install_steps(metadata, folder);
            let mine = plan_view(steps@);
            let n = metadata.content.len() as int;
            let jars = jar_steps(metadata);
            assert(steps@.len() == 4 + n + jars.len());
            assert(plan.len() == 4 + n + jars.len());
            assert forall|j: int| 0 <= j < plan.len() implies mine[j] == plan[j] by {
                if j < 2 {
                    assert(steps@[j] == fixed[j]);
                } else if j < 2 + n {
                    assert(steps@[j] == fixed[j]);
                    assert(fixed[2 + (j - 2)]@ == extraction_steps(metadata, folder)[j - 2]);
                    assert(plan[j] == extraction_steps(metadata, folder)[j - 2]);
                } else if j < 4 + n {
                    assert(steps@[j] == fixed[j]);
                } else {
                    assert(steps@[fixed.len() + (j - fixed.len())]@ == jars[j - fixed.len()]);
                    assert(plan[j] == jars[j - (4 + n)]);
                }
            }
            assert(mine =~= plan);
        }
        Ok(steps)
    }

    /// Makes the record of this archive for the database: the files that its
    /// installation puts on disk, and its metadata.
    pub fn record(&self, packages_folder: &str) -> (r: Result<InstalledPlugin, ArchiveError>)
        ensures
            match r {
                Ok(record) => spec_installed_files(self@, packages_folder@) == Ok::<
                    Seq<Seq<char>>,
                    ArchiveError,
                >(record@.files) && record@.metadata == self@.metadata,
                Err(e) => spec_installed_files(self@, packages_folder@) == Err::<
                    Seq<Seq<char>>,
                    ArchiveError,
                >(e),
            },
    {
        match self.get_archive_installed_files(packages_folder) {
            Ok(files) => Ok(InstalledPlugin { files, metadata: self.metadata.duplicate() }),
            Err(e) => Err(e),
        }
    }
}

impl Database {
    /// Plans the uninstallation of the plugin `name`. Nothing is changed; the
    /// steps are for the caller to perform in order.
    pub fn uninstall(&self, name: &str, packages_folder: &str) -> (r: Result<
        Vec<Step>,
        DatabaseError,
    >)
        requires
            self.wf(),
        ensures
            match r {
                Ok(steps) => spec_uninstall(self@, name@, packages_folder@) == Ok::<
                    Seq<StepView>,
                    DatabaseError,
                >(plan_view(steps@)),
                Err(e) => spec_uninstall(self@, name@, packages_folder@) == Err::<
                    Seq<StepView>,
                    DatabaseError,
                >(e),
            },
            !self@.contains_key(name@) ==> r is Err,
    {
        let record = match self.get(name) {
            None => { return Err(DatabaseError::NotInstalled); },
            Some(record) => record,
        };
        let ghost files = views(record.files@);
        let mut steps: Vec<Step> = Vec::new();
        steps.push(run_script(packages_folder, name, PackageScript::Prerm, PackageScriptArg::Empty));
        let mut i: usize = 0;
        while i < record.files.len()
            invariant
                i <= record.files.len(),
                files == views(record.files@),
                steps@.len() == 1 + i,
                steps@[0]@ == script_step(
                    packages_folder@,
                    name@,
                    PackageScript::Prerm,
                    PackageScriptArg::Empty,
                ),
                forall|j: int|
                    0 <= j < i ==> (#[trigger] steps@[1 + j])@ == (StepView::RemoveFile {
                        path: files[j],
                    }),
            decreases record.files.len() - i,
        {
            assert(files[i as int] == record.files@[i as int]@);
            steps.push(Step::RemoveFile { path: record.files[i].clone() });
            i += 1;
        }
        steps.push(
            run_script(packages_folder, name, PackageScript::Postrm, PackageScriptArg::Empty),
        );
        steps.push(Step::Forget { name: name.to_owned() });
        proof {
            let plan = uninstall_steps(record@, name@, packages_folder@);
            let mine = plan_view(steps@);
            assert(mine.len() == plan.len());
            assert forall|j: int| 0 <= j < plan.len() implies mine[j] == plan[j] by {
                if 1 <= j < 1 + files.len() {
                    assert(steps@[1 + (j - 1)]@ == (StepView::RemoveFile { path: files[j - 1] }));
                }
            }
            assert(mine =~= plan);
        }
        Ok(steps)
    }
}

// ---------------------------------------------------------------------------
// Carrying a plan out
// ---------------------------------------------------------------------------

/// How the caller found a step to go.
#[derive(Debug, Clone, Copy, PartialEq, Eq, Structural)]
pub enum Report {
    /// The step was carried out.
    Done,
    /// The step could not be carried out; for a script, it could not be
    /// started.
    Failed,
    /// There is no script at the path of the step.
    NoScript,
    /// The script ran to its end, with or without success.
    ScriptExit { success: bool },
}

/// What a report means for the operation.
#[derive(Debug, Clone, Copy, PartialEq, Eq, Structural)]
pub enum Verdict {
    /// The operation goes on.
    Proceed,
    /// The operation goes on, and the report is worth a line in the log.
    Warn,
    /// The operation ends here; what was done before stays as it is.
    Abort,
}

/// Where an operation stands.
#[derive(Debug, Clone, Copy, PartialEq, Eq, Structural)]
pub enum Progress {
    /// The step at `at` is to be performed next.
    Next { at: usize },
    /// Every step was performed.
    Finished,
    /// The step at `at` failed and the operation was given up.
    Aborted { at: usize },
}

/// What `report` means for an operation that has just tried `step`. A script
/// that is missing is passed over, and one that ends without success is
/// noted and no more; only a script that cannot be started ends the
/// operation. A file that cannot be removed is noted. Any other step has to
/// be done.
pub open spec fn spec_judge(step: StepView, report: Report) -> Verdict {
    match step {
        StepView::RunScript { .. } => match report {
            Report::Failed => Verdict::Abort,
            Report::ScriptExit { success: false } => Verdict::Warn,
            _ => Verdict::Proceed,
        },
        StepView::RemoveFile { .. } => match report {
            Report::Done => Verdict::Proceed,
            _ => Verdict::Warn,
        },
        _ => match report {
            Report::Done => Verdict::Proceed,
            _ => Verdict::Abort,
        },
    }
}

/// Where an operation stands after the step at `at` went as `report` says.
pub open spec fn spec_advance(plan: Seq<StepView>, at: usize, report: Report) -> Progress {
    if at >= plan.len() {
        Progress::Finished
    } else if spec_judge(plan[at as int], report) == Verdict::Abort {
        Progress::Aborted { at }
    } else if at + 1 == plan.len() {
        Progress::Finished
    } else {
        Progress::Next { at: (at + 1) as usize }
    }
}

/// Where an operation stands once its steps from `at` on went as `reports`
/// say, one report for each step that was tried.
pub open spec fn spec_run(plan: Seq<StepView>, reports: Seq<Report>, at: usize) -> Progress
    decreases plan.len() - at,
{
    if at >= plan.len() {
        Progress::Finished
    } else if at >= reports.len() {
        Progress::Next { at }
    } else {
        match spec_advance(plan, at, reports[at as int]) {
            Progress::Next { at: next } => if next == at + 1 {
                spec_run(plan, reports, next)
            } else {
                Progress::Next { at: next }
            },
            other => other,
        }
    }
}

/// Judges how a step went.
pub fn judge(step: &Step, report: Report) -> (r: Verdict)
    ensures
        r == spec_judge(step@, report),
{
    match step {
        Step::RunScript { .. } => match report {
            Report::Failed => Verdict::Abort,
            Report::ScriptExit { success: false } => Verdict::Warn,
            _ => Verdict::Proceed,
        },
        Step::RemoveFile { .. } => match report {
            Report::Done => Verdict::Proceed,
            _ => Verdict::Warn,
        },
        _ => match report {
            Report::Done => Verdict::Proceed,
            _ => Verdict::Abort,
        },
    }
}

/// Where an operation begins.
pub fn begin(plan: &Vec<Step>) -> (r: Progress)
    ensures
        r == (if plan@.len() == 0 {
            Progress::Finished
        } else {
            Progress::Next { at: 0 }
        }),
{
    if plan.len() == 0 {
        Progress::Finished
    } else {
        Progress::Next { at: 0 }
    }
}

/// Decides how an operation goes on after the step at `at` was tried.
pub fn advance(plan: &Vec<Step>, at: usize, report: Report) -> (r: Progress)
    ensures
        r == spec_advance(plan_view(plan@), at, report),
{
    if at >= plan.len() {
        return Progress::Finished;
    }
    assert(plan_view(plan@)[at as int] == plan@[at as int]@);
    match judge(&plan[at], report) {
        Verdict::Abort => Progress::Aborted { at },
        _ => {
            if at + 1 == plan.len() {
                Progress::Finished
            } else {
                Progress::Next { at: at + 1 }
            }
        },
    }
}

/// An operation is finished only when every one of its steps was tried and
/// none of the reports ends it: a step that failed is never passed over, and
/// no operation is said to be finished halfway.
pub proof fn law_finished_means_done(plan: Seq<StepView>, reports: Seq<Report>, at: usize)
    requires
        plan.len() <= usize::MAX,
        spec_run(plan, reports, at) == Progress::Finished,
    ensures
        forall|i: int|
            at <= i < plan.len() ==> i < reports.len() && spec_judge(
                #[trigger] plan[i],
                reports[i],
            ) != Verdict::Abort,
    decreases plan.len() - at,
{
    if at < plan.len() {
        law_finished_means_done(plan, reports, (at + 1) as usize);
    }
}

/// An operation is given up at the first step whose report ends it, and no
/// step behind that one is tried.
pub proof fn law_aborted_at_first_failure(
    plan: Seq<StepView>,
    reports: Seq<Report>,
    at: usize,
    failed: usize,
)
    requires
        plan.len() <= usize::MAX,
        spec_run(plan, reports, at) == (Progress::Aborted { at: failed }),
    ensures
        at <= failed < plan.len(),
        failed < reports.len(),
        spec_judge(plan[failed as int], reports[failed as int]) == Verdict::Abort,
        forall|i: int|
            at <= i < failed ==> spec_judge(#[trigger] plan[i], reports[i]) != Verdict::Abort,
    decreases plan.len() - at,
{
    if at < plan.len() && at < reports.len() {
        if spec_judge(plan[at as int], reports[at as int]) != Verdict::Abort {
            law_aborted_at_first_failure(plan, reports, (at + 1) as usize, failed);
        }
    }
}

} // verus!
