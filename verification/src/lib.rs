//! Read-only mirror of a hierarchical parameter store onto disk: the
//! verified core (configuration checks, change detection, state tracking,
//! path mapping, event classification, and the debounce/command trigger).

pub mod aws;
pub mod config;
pub mod daemon;
pub mod digest;
pub mod engine;
pub mod filewriter;
pub mod json;
pub mod nameset;
pub mod provider;
pub mod state;
pub mod text;
pub mod trigger;
