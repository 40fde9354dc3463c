//! Core logic of the `plz` package manager: versions, version requirements
//! and ranges, dependency descriptions, package metadata and their compact
//! textual encodings.
pub mod errors;
pub mod text;
pub mod version;
pub mod range;
pub mod verreq;
pub mod depend;
pub mod origin;
pub mod metadata;
pub mod settings;
pub mod queue;
pub mod upgrade;
pub mod records;
pub mod dew;
pub mod apt;
pub mod flags;
pub mod commands;
pub mod steps;
