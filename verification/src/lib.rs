//! byteback: reclaims disk space by sweeping regenerable build, dependency and
//! cache directories (`node_modules`, `.next`, `target`, ...).
//!
//! This crate holds the verified core: the target names, the persistent
//! configuration, the grouping of a scan into a report, the bookkeeping of a
//! deletion run and the dashboard's state machine. The terminal, the file
//! system walk and the deletion itself live in the program around it.

pub mod app;
pub mod app_laws;
pub mod cli;
pub mod config;
pub mod delete;
pub mod report;
pub mod report_laws;
pub mod scan;
pub mod seqs;
pub mod target;
pub mod view;
