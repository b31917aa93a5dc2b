//! Windash's verified core: the dock, window-geometry, notes and settings stores, the
//! crash-safe persistence rules they share, and the Windows shell helpers.

pub mod dock;
pub mod geom;
pub mod metrics;
pub mod notes;
pub mod persist;
pub mod process;
pub mod search;
pub mod settings;
pub mod text;
pub mod theme;
