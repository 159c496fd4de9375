//! Package histories from a package manager's log: parsing of log lines,
//! grouping per package, filtering, windowing and per-package limits.

pub mod action;
pub mod error;
pub mod text;
pub mod timestamp;
pub mod event;
pub mod group;
pub mod opt;
pub mod filter;
pub mod range;
pub mod pkghist;
pub mod laws;
pub mod format;
