//! Reconciliation core of a package manager's dependency lock.
//!
//! Given a declared manifest (direct dependency constraints, an optional
//! owned module, an optional list of exported commands) and an optional
//! previously persisted lock state, this crate computes a new, fully
//! resolved, deterministic lock state: every concrete module version the
//! project depends on, and every command name it exposes, each command
//! bound to the module that implements it.

pub mod strkey;
pub mod strmap;
pub mod manifest;
pub mod resolver;
pub mod records;
pub mod model;
pub mod lockfile;
pub mod laws;
