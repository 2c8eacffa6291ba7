//! The places on the host that the package manager works with.

use vstd::prelude::*;

verus! {

/// The directory that holds the lifecycle scripts, one directory per plugin.
pub const PACKAGES_FOLDER: &'static str = "/var/rudder/packages";

/// The file that lists the resources which the host loads.
pub const WEBAPP_XML_PATH: &'static str = "/opt/rudder/share/webapps/rudder.xml";

/// The file that holds the database of installed plugins.
pub const PACKAGES_DATABASE_PATH: &'static str = "/var/rudder/packages/index.json";

/// The configuration file of the package manager.
pub const CONFIG_PATH: &'static str = "/opt/rudder/etc/rudder-pkg/rudder-pkg.conf";

/// The keyring that signatures of downloaded archives are checked against.
pub const SIGNATURE_KEYRING_PATH: &'static str = "/opt/rudder/etc/rudder-pkg/rudder_plugins_key.gpg";

/// The file that holds the version of the running host.
pub const RUDDER_VERSION_PATH: &'static str = "/opt/rudder/share/versions/rudder-server-version";

/// The local copy of the repository index.
pub const REPOSITORY_INDEX_PATH: &'static str = "/var/rudder/tmp/plugins/rpkg.index";

/// The directory that archives are downloaded to.
pub const TMP_PLUGINS_FOLDER: &'static str = "/var/rudder/tmp/plugins";

/// The places that an operation works with. The library reads
/// `packages_folder` alone; the others say where its caller finds and keeps
/// what it hands to the library.
#[derive(Debug, Clone, PartialEq, Eq)]
pub struct Config {
    pub packages_folder: String,
    pub webapp_xml_path: String,
    pub database_path: String,
    pub rudder_version_path: String,
    pub repository_index_path: String,
    pub tmp_plugins_folder: String,
}

impl Config {
    /// The places of an installed host.
    pub fn system() -> (c: Config)
        ensures
            c.packages_folder@ == PACKAGES_FOLDER@,
            c.webapp_xml_path@ == WEBAPP_XML_PATH@,
            c.database_path@ == PACKAGES_DATABASE_PATH@,
            c.rudder_version_path@ == RUDDER_VERSION_PATH@,
            c.repository_index_path@ == REPOSITORY_INDEX_PATH@,
            c.tmp_plugins_folder@ == TMP_PLUGINS_FOLDER@,
    {
        Config {
            packages_folder: PACKAGES_FOLDER.to_owned(),
            webapp_xml_path: WEBAPP_XML_PATH.to_owned(),
            database_path: PACKAGES_DATABASE_PATH.to_owned(),
            rudder_version_path: RUDDER_VERSION_PATH.to_owned(),
            repository_index_path: REPOSITORY_INDEX_PATH.to_owned(),
            tmp_plugins_folder: TMP_PLUGINS_FOLDER.to_owned(),
        }
    }
}

} // verus!
