//! The payload types that messages carry.

pub mod manifest;
pub mod progress_report;
