//! Keeps chart pins of a release-spec document in step with the charts'
//! repositories: loads the document's repositories and applications, looks up
//! versions in a repository index, locates the default configuration of a
//! chart version, merges an overlay with the chart's old and new defaults (or
//! reads the outcome of an outside merge tool), rewrites the version pin in
//! place, and drives each application through those steps.
pub mod archive;
pub mod diff3;
pub mod driver;
pub mod error;
pub mod index;
pub mod merge;
pub mod model;
pub mod rewrite;
pub mod scratch;
pub mod support;
pub mod yaml;
