//! Explicit, content-addressed large-file storage for Git repositories.
//!
//! The verified core of Shadow: object identities, refs, blob keys, the
//! managed-path rules, the decisions behind `status`, `publish`, `restore`,
//! `check` and `gc`, the reading of Git history for committed refs, and
//! the helpers of the first on-disk layout.

pub mod text;
pub mod order;
pub mod model;
pub mod digest;
pub mod media_type;
pub mod config;
pub mod backend;
pub mod repository;
pub mod status;
pub mod init;
pub mod publish;
pub mod restore;
pub mod gc;
pub mod history;
pub mod legacy;
