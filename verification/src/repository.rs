//! The repository's own policy: which files it must and must not hold,
//! what its manifests, sources and documents must say, and the scans of
//! their text that decide it. Reading the files and running commands is
//! left to the caller, who hands over their contents.

pub mod scan;
pub mod markdown;
pub mod policy;
