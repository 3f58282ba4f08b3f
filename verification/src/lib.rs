//! Systemless module-overlay mounting: composes read-only overlay stacks of
//! module layers onto a fixed set of partition roots, restores nested mount
//! points hidden by a root overlay, and offers a file-granular live-patch
//! path that bind-mounts single files without constructing any overlay.

use vstd::prelude::*;

pub mod config;
pub mod errors;
pub mod model;
pub mod ops;
pub mod overlay;
pub mod patch;
pub mod strutil;
pub mod sys;
