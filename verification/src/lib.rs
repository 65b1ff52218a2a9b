//! Runtime core of a desktop widget host.
//!
//! The host loads pluggable modules that each contribute visual activities,
//! arranges those activities through a pluggable layout strategy, and keeps
//! the whole arrangement consistent while the configuration is hot-reloaded
//! from disk.  This crate holds the decision core of that host: the module
//! and activity registry, the two command processors (UI commands from
//! modules, reload commands from the filesystem watcher), and the producer
//! runtime lifecycle with its atomic restart-and-replay protocol.  The
//! rendering toolkit, the on-disk parser, and the watcher itself are
//! external collaborators: they hand plain values to this crate and take
//! plain values back.

pub mod app;
pub mod config;
pub mod layout;
pub mod registry;
pub mod runtime;
pub mod server_queue;
