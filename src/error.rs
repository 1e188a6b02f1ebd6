use vstd::prelude::*;

verus! {

/// What went wrong while bringing an application's chart pin up to date.
#[derive(Clone, Copy, Debug, PartialEq, Eq, Structural)]
pub enum Error {
    /// The release-spec document could not be read.
    DocumentUnreadable,
    /// The release-spec document lacks a required section or holds a value of the wrong shape.
    DocumentMalformed,
    /// The repository index could not be fetched.
    IndexUnreachable,
    /// The fetched index is not a structured document.
    IndexMalformed,
    /// The index's `entries` section, a chart's version list or a version record has the wrong shape.
    IndexShapeInvalid,
    /// The index has no versions for the chart.
    ChartNotFound,
    /// The chart's version list has no record with the requested version.
    VersionNotFound,
    /// The version record names no archive location that parses as a URL.
    ArchiveUrlInvalid,
    /// The chart archive could not be fetched.
    ArchiveUnreachable,
    /// The chart archive could not be decompressed or unpacked.
    ArchiveCorrupt,
    /// The chart's default configuration file is absent from the unpacked archive.
    DefaultConfigMissing,
    /// The merge tool could not be started.
    MergeToolUnavailable,
    /// The merge tool failed to read or write its files.
    MergeIOError,
    /// The document holds no pin of the expected version.
    VersionPinNotFound,
    /// The document holds more than one pin of the expected version.
    AmbiguousVersionPin,
    /// An application names a repository that its document does not declare.
    RepositoryUndeclared,
}

} // verus!
