//! Hot-reload state persistence for a long-running interactive application.
//!
//! A host process repeatedly loads, runs and unloads a compiled module. A
//! filesystem watcher raises a reload signal when the module artifact changes;
//! a probe that runs first in every tick notices the signal, captures every
//! resource registered for preservation into a [`store::ResourceStore`], and
//! asks the run loop to exit, so the next load of the module starts from the
//! captured state instead of its defaults.

pub mod codec;
pub mod harness;
pub mod signal;
pub mod store;
