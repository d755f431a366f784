//! Discovery and ranking of locally installed Microsoft build toolchains and
//! Windows platform SDKs.
//!
//! The crate holds the discovery engine itself: normalizing raw candidate
//! records, validating Windows SDK roots against marker-file evidence,
//! mapping toolchain versions onto platform-toolset labels, deduplicating,
//! and ranking candidates by a version-string comparator. Gathering the raw
//! evidence (registry values, environment variables, directory listings and
//! the Visual Studio setup enumeration) is left to the caller.

pub mod aggregate;
pub mod toolchain;
pub mod version;
pub mod windows_sdk;
