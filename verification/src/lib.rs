//! Kevat: resumable copy and move of large folders onto external drives.

pub mod arrival_laws;
pub mod browse;
pub mod browse_laws;
pub mod cli;
pub mod cli_laws;
pub mod copy;
pub mod drive;
pub mod drive_laws;
pub mod eject;
pub mod eject_laws;
pub mod engine;
pub mod engine_laws;
pub mod erase;
pub mod erase_laws;
pub mod eta;
pub mod field_laws;
pub mod fields;
pub mod guard_laws;
pub mod hash;
pub mod icon;
pub mod journal;
pub mod journal_laws;
pub mod keep_laws;
pub mod order_laws;
pub mod outcome;
pub mod path;
pub mod path_laws;
pub mod prepare;
pub mod progress;
pub mod raster;
pub mod refusal_laws;
pub mod resume_laws;
pub mod run;
pub mod run_laws;
pub mod scan;
pub mod scan_laws;
pub mod size;
pub mod size_laws;
pub mod sort;
pub mod tally_laws;
pub mod text;
pub mod theme;
pub mod ui;
pub mod ui_laws;
pub mod word_laws;
pub mod words;
