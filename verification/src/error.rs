//! The errors the library reports.
use vstd::prelude::*;

verus! {

/// Why an operation of the library did not succeed.
#[derive(Debug, PartialEq, Eq, Clone)]
pub enum RawError {
    /// The configuration names neither `mode=binary` nor `mode=source`.
    ModeNotSpecified,
    /// A `META` record lacks the line of this tag.
    MetaFieldMissing(char),
    /// The configuration has no `url=` line.
    UrlNotSet,
    /// The configuration is not in binary mode.
    NotBinaryMode,
    /// The configuration has no `community=` line.
    CommunityNotSet,
    /// The configuration has neither a `source=` nor a `root=` line.
    NoSourceOrRoot,
    /// The configuration mentions `local=` but no line starts with it.
    LocalLineMissing,
    /// The configuration has no `root=` line.
    RootNotSet,
    /// The index has no line for the package.
    NotInIndex,
    /// The package's index line has no checksum field.
    ChecksumMissing,
    /// An index line names no package before `/Pkgfile`.
    NameMissing,
    /// An index line has no version field.
    VersionMissing,
    /// An index line has no release field.
    ReleaseMissing,
    /// The index does not mention the package at all.
    PackageNotFound,
    /// No index line holds `/pkg/`.
    NoSuchPackage,
    /// The `Pkgfile` printout lacks the variable at this position.
    MissingPkgfileVariable(usize),
    /// The build style file named by this `build=` line does not exist.
    NoBuildStyle(String),
    /// No `build()`, no `build=` and no default build style file, in a
    /// `Pkgfile` that defines `prepare()`.
    NoDefaultBuildStyle,
    /// As `NoDefaultBuildStyle`, in a `Pkgfile` that defines `package()` but not `prepare()`.
    NoDefaultBuildStyleSet,
    /// As `NoDefaultBuildStyle`, in a `Pkgfile` that defines neither `prepare()` nor `package()`.
    NoDefaultBuildStyleAvailable,
    /// A path found while writing the footprint is not under the package directory.
    OutsidePackageDir,
    /// An archive name lacks its version or release.
    MalformedArchiveName,
    /// The `Pkgfile` has no `version=` line.
    PkgfileVersionMissing,
    /// The `Pkgfile` has no `release=` line.
    PkgfileReleaseMissing,
    /// An archive's checksum differs from the one the index records.
    ChecksumMismatch,
    /// No built package (`.raw.` archive) lies in the package's directory.
    NoPackageGenerated,
}

} // verus!
