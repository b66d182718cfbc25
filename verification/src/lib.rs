//! AudiaCore foundation: stable error identity, identifiers, sensitive values,
//! templates, configured error presentation, reconciliation, configuration
//! layering and provenance, file authorities and native path resolution,
//! events, workflow, time and managed configuration, with their contracts
//! proved by Verus.

pub mod text;
pub mod errors;
pub mod identity;
pub mod template;
pub mod sensitive;
pub mod error_catalog;
pub mod reconcile;
pub mod host;
pub mod managed_config;
pub mod application;
pub mod events;
pub mod workflow;
pub mod time;
pub mod config;
pub mod host_native;
