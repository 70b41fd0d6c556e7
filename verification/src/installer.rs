//! Install and uninstall decisions: what the external package-manager
//! actuator should be asked to do for a name, or the soft outcome that
//! ends the operation early. Running the actuator is the caller's part;
//! the decision is exact over the inventory and the registry outcome.

use vstd::prelude::*;

use crate::parse::{parsed_version_view, semver_parse};
use crate::registry::CratesRegistry;
use crate::tree::{find_by_name, PackageTree};
use crate::version::Version;

verus! {

/// What an install request decides.
pub enum InstallPlan {
    /// The name is already in the inventory and no force was asked.
    AlreadyInstalled,
    /// The registry reported no version for the name.
    NotAvailable,
    /// Install the resolved latest version with the given flags.
    Proceed { version: Version, locked: bool, forced: bool, nightly: bool },
}

/// What an uninstall request decides.
pub enum UninstallPlan {
    /// The name is not in the inventory.
    NotInstalled,
    /// Remove the package, whose installed version is carried for
    /// reporting.
    Proceed(Version),
}

/// The install/uninstall orchestrator: the inventory on one side, the
/// registry on the other.
pub struct PackageInstaller<'a> {
    pub registry: &'a CratesRegistry,
    pub packages: &'a PackageTree,
}

impl<'a> PackageInstaller<'a> {
    /// Build an orchestrator over a registry and an inventory.
    pub fn new(registry: &'a CratesRegistry, packages: &'a PackageTree) -> (r: Self)
        ensures
            r.registry == registry,
            r.packages == packages,
    {
        PackageInstaller { registry, packages }
    }

    /// Decide an install: unless forced, a name already in the inventory
    /// is left alone; else the latest registry version is resolved, a
    /// missing record being the soft "not available" outcome.
    pub fn install_package(
        &self,
        package_name: &str,
        locked: bool,
        forced: bool,
        nightly: bool,
    ) -> (r: InstallPlan)
        ensures
            r is AlreadyInstalled <==> !forced && find_by_name(
                self.packages@,
                package_name@,
            ) is Some,
            r matches InstallPlan::Proceed { version, locked: l, forced: f, nightly: n } ==> l
                == locked && f == forced && n == nightly && exists|s: Seq<char>|
                #[trigger] semver_parse(s) matches Some(t) && version@ == parsed_version_view(t),
    {
        if !forced {
            if let Some(_local) = self.packages.get(package_name) {
                return InstallPlan::AlreadyInstalled;
            }
        }
        match self.registry.get_latest_version(package_name) {
            Ok(version) => InstallPlan::Proceed { version, locked, forced, nightly },
            Err(_) => InstallPlan::NotAvailable,
        }
    }

    /// Decide an uninstall: a name missing from the inventory is the soft
    /// "not installed" outcome; else the actuator removes it.
    pub fn uninstall_package(&self, package_name: &str) -> (r: UninstallPlan)
        ensures
            r is NotInstalled <==> find_by_name(self.packages@, package_name@) is None,
            r matches UninstallPlan::Proceed(v) ==> find_by_name(
                self.packages@,
                package_name@,
            ) matches Some(pv) && v@ == pv.version,
    {
        match self.packages.get(package_name) {
            Some(local) => UninstallPlan::Proceed(local.version().clone()),
            None => UninstallPlan::NotInstalled,
        }
    }
}

} // verus!
