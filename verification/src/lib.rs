//! Manifest data model and workspace resolution for JavaScript projects.
//!
//! The crate reads nothing from disk by itself: callers hand it the
//! top-level entries of manifests as they stand in their files, the names
//! found in directories and the paths that a walk of the project produced,
//! and get back validated names, manifests that keep the order of their
//! documents, and the queries that a project of several packages needs.
//!
//! - `package_name`, `name_order`: validated package names.
//! - `text`, `entries`: the order of strings, and maps as sequences of
//!   entries.
//! - `json`: JSON values; `serde_json` and `serde_yaml` read and print them.
//! - `ordered_map`: the maps of `linked_hash_map` that a manifest holds.
//! - `dependencies`: one dependency section of a manifest.
//! - `manifest`: what a manifest document means.
//! - `package_json`: reading, changing and writing manifests.
//! - `manifest_proofs`, `round_trip`, `laws`: what holds of reading,
//!   changing and writing taken together.
//! - `paths`, `project`, `dependents`: packages, projects and their queries.
//! - `workspace`: workspace configuration and the manifests it selects.
//! - `commands`, `registry`: what the commands of a front end decide.

pub mod commands;
pub mod dependencies;
pub mod dependents;
pub mod entries;
pub mod json;
pub mod laws;
pub mod manifest;
pub mod manifest_proofs;
pub mod name_order;
pub mod ordered_map;
pub mod package_json;
pub mod package_name;
pub mod paths;
pub mod project;
pub mod registry;
pub mod round_trip;
pub mod text;
pub mod workspace;
