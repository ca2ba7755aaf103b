//! A unified security-scanning engine: scan planning and bounded dispatch,
//! the per-domain scanners, and the aggregation of their findings into one
//! filterable, sortable report.

pub mod arrange;
pub mod config;
pub mod config_scan;
pub mod container;
pub mod deps;
pub mod lockfile;
pub mod model;
pub mod normalize;
pub mod npm;
pub mod orchestrator;
pub mod outside;
pub mod report;
pub mod secrets;
pub mod sequences;
pub mod severity;
pub mod syntax;
pub mod tally;
pub mod text;
pub mod walk;
