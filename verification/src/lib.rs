//! Repository refresh and download engine for a Debian-style package manager:
//! release-metadata parsing and validation, checksum and codec handling,
//! fetch planning with retry and multi-source fallback, and the progress
//! accounting that ties a refresh together.

pub mod chars;
pub mod checksum;
pub mod codec;
pub mod control;
pub mod date;
pub mod escape;
pub mod fetch;
pub mod inrelease;
pub mod pkg;
pub mod refresh;
pub mod source;
pub mod util;
