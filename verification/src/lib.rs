//! Core of a minimal process supervisor: it launches a declared set of child
//! services, captures each child's standard-output and standard-error streams,
//! fans the captured bytes out to configured sinks, and reaps children as they
//! exit.
//!
//! The crate holds the event-driven I/O and lifecycle core: the buffered
//! pipe-drainer ([`buffd::BufFd`]), the per-stream fan-out bus ([`bus::Bus`]),
//! the registry of live services ([`registry::Registry`]), the kernel-event
//! watcher ([`watcher::Watcher`]) and the run loop ([`runner`]). Command-line
//! parsing, configuration-file reading, executable path resolution and the
//! concrete sink implementations are collaborators that live outside this
//! crate; the core states only the interface it consumes from each.

pub mod buffd;
pub mod bus;
pub mod conf;
pub mod registry;
pub mod runner;
pub mod service;
pub mod watcher;
