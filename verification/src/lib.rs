//! Verified core of a machine-room asset manager: racks, rooms, device
//! models and devices with U-slot placement rules, soft deletion with a
//! restore window, paged search, spreadsheet import rules, report
//! figures and backup housekeeping.
pub mod text;
pub mod error;
pub mod models;
pub mod validation;
pub mod db;
pub mod like;
pub mod laws;
pub mod excel;
pub mod import;
pub mod export;
pub mod report;
pub mod backup;
pub mod commands;
pub mod restore;
pub mod migration;
