//! Verified core of the MangoDisk cleanup service: request validation and
//! execution planning, the progress reporter that the desktop shell observes,
//! the cooperative operation coordinator, the normalized plan fingerprint and
//! the execution state machine that drives a deep cleanup step.

pub mod types;
pub mod progress;
pub mod operation;
pub mod text;
pub mod sorting;
pub mod fingerprint;
pub mod planning;
pub mod run;
pub mod service;
