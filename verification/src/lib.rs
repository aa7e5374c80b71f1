//! Core logic of FrostScan, a disk usage analyzer: the scan tree and its
//! aggregates, extension statistics, treemap level planning, size
//! formatting, notices and the application state machine.

pub mod text;
pub mod i18n;
pub mod app;
pub mod ordering;
pub mod paths;
pub mod ui;
pub mod model;
pub mod services;
