//! Discovers third-party dependencies declared in a project tree (pip
//! requirement manifests and npm lockfiles), resolves license and homepage
//! metadata through registry lookups with a persistent cache, and produces a
//! deduplicated, sorted inventory of dependency records.

pub mod cache;
pub mod cli;
pub mod enrich;
pub mod json;
pub mod lockfile;
pub mod pipeline;
pub mod registry;
pub mod scan;
pub mod requirements;
pub mod strutil;
pub mod types;
