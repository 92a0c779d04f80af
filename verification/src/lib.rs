//! Local volume management for a container runtime.
//!
//! The crate keeps a registry of named and anonymous volumes, lays out their
//! directories under a volume root, and resolves the volume shorthands of a
//! container into mount descriptors. Every decision is made here, on plain
//! values; the host side (directories, the index file, the runtime's state
//! files) is read and written by the caller, which hands observations in and
//! carries the returned actions out.

pub mod action;
pub mod error;
pub mod index;
pub mod layout;
pub mod manager;
pub mod names;
pub mod pattern;
pub mod pod;
pub mod probe;
pub mod record;
pub mod resolver;
pub mod text;

pub use crate::action::HostAction;
pub use crate::error::VolumeError;
pub use crate::manager::VolumeManager;
pub use crate::pattern::{string_to_pattern, ParseError, PatternType, VolumePattern};
pub use crate::probe::{RuntimeState, StateDir};
pub use crate::record::{Driver, Mount, MountType, StringMap, VolumeMetadata};
