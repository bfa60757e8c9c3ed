//! The install-or-keep decision for one bundled package.

use vstd::prelude::*;
use crate::version::{is_newer_version, newer_version, version_triple};

verus! {

/// A file modification time, in nanoseconds relative to the Unix epoch.
/// `None` stands for a time that could not be read.
pub type ModifiedTime = Option<i128>;

/// Whether the bundled archive counts as more recent than the installed descriptor.
pub open spec fn newer_timestamp(bundled: ModifiedTime, installed: ModifiedTime) -> bool {
    match (bundled, installed) {
        (Some(b), Some(i)) => b > i,
        (Some(_), None) => true,
        _ => false,
    }
}

/// Compares the bundled archive's modification time with that of the installed
/// descriptor. A known bundled time beats an unknown installed time; every other
/// combination with a missing time is not newer.
pub fn is_newer_timestamp(bundled: ModifiedTime, installed: ModifiedTime) -> (newer: bool)
    ensures
        newer == newer_timestamp(bundled, installed),
{
    match (bundled, installed) {
        (Some(bundled_time), Some(installed_time)) => bundled_time > installed_time,
        (Some(_), None) => true,
        _ => false,
    }
}

/// The install policy. With replacements disabled nothing is installed.
/// Otherwise a package is installed where a clean reinstall is asked for, where
/// its directory does not exist, where the bundled version is newer than the
/// installed one, where the bundled version is empty, or where the bundled
/// archive is more recent than the installed descriptor.
pub open spec fn should_install(
    clean_up: bool,
    replacements_disabled: bool,
    dir_exists: bool,
    bundled_version: Seq<char>,
    installed_version: Seq<char>,
    bundled_modified: ModifiedTime,
    installed_modified: ModifiedTime,
) -> bool {
    !replacements_disabled && (clean_up || !dir_exists || newer_version(
        bundled_version,
        installed_version,
    ) || bundled_version.len() == 0 || newer_timestamp(bundled_modified, installed_modified))
}

/// Decides whether a bundled package is to be installed over what is there.
pub fn decide(
    clean_up: bool,
    replacements_disabled: bool,
    dir_exists: bool,
    bundled_version: &str,
    installed_version: &str,
    bundled_modified: ModifiedTime,
    installed_modified: ModifiedTime,
) -> (install: bool)
    ensures
        install == should_install(
            clean_up,
            replacements_disabled,
            dir_exists,
            bundled_version@,
            installed_version@,
            bundled_modified,
            installed_modified,
        ),
{
    !replacements_disabled && (clean_up || !dir_exists || is_newer_version(
        bundled_version,
        installed_version,
    ) || bundled_version.is_empty() || is_newer_timestamp(bundled_modified, installed_modified))
}

/// With replacements disabled no package is installed, whatever the other
/// inputs are: a clean reinstall does not override it.
pub proof fn lemma_replacements_disabled_never_installs(
    clean_up: bool,
    dir_exists: bool,
    bundled_version: Seq<char>,
    installed_version: Seq<char>,
    bundled_modified: ModifiedTime,
    installed_modified: ModifiedTime,
)
    ensures
        !should_install(
            clean_up,
            true,
            dir_exists,
            bundled_version,
            installed_version,
            bundled_modified,
            installed_modified,
        ),
{
}

/// With replacements allowed, a clean reinstall installs every package, and
/// so does a missing directory or an empty bundled version.
pub proof fn lemma_forced_installs(
    clean_up: bool,
    dir_exists: bool,
    bundled_version: Seq<char>,
    installed_version: Seq<char>,
    bundled_modified: ModifiedTime,
    installed_modified: ModifiedTime,
)
    requires
        clean_up || !dir_exists || bundled_version.len() == 0,
    ensures
        should_install(
            clean_up,
            false,
            dir_exists,
            bundled_version,
            installed_version,
            bundled_modified,
            installed_modified,
        ),
{
}

/// A package that is installed at a version whose triple equals the bundled
/// one, with a descriptor at least as recent as the bundled archive, is left
/// alone unless a clean reinstall is asked for or the bundled version is empty.
pub proof fn lemma_settled_package_is_kept(
    replacements_disabled: bool,
    bundled_version: Seq<char>,
    installed_version: Seq<char>,
    bundled_modified: ModifiedTime,
    installed_modified: ModifiedTime,
)
    requires
        bundled_version.len() > 0,
        version_triple(bundled_version) == version_triple(installed_version),
        !newer_timestamp(bundled_modified, installed_modified),
    ensures
        !should_install(
            false,
            replacements_disabled,
            true,
            bundled_version,
            installed_version,
            bundled_modified,
            installed_modified,
        ),
{
}

} // verus!
