//! A read-only file carver.
//!
//! The library scans a source of bytes for file signatures, turns the hits
//! into recovery plans, and copies the planned byte ranges out. A source is
//! only ever read: every function takes it by shared reference and calls
//! nothing on it but [`disk::ReadAt::read_exact_at`].
//!
//! A source may answer one and the same read in several ways. So the contract
//! of a function that reads relates the source to the results that the reads
//! may lead to; the names of these relations end in `_may`. What holds of all
//! results stands in the modules whose names end in `_laws`.

pub mod blind_laws;
pub mod box_laws;
pub mod bytes;
pub mod carver;
pub mod choice_laws;
pub mod clearance;
pub mod copying;
pub mod cut_laws;
pub mod damage_laws;
pub mod disk;
pub mod error;
pub mod filter;
pub mod format_laws;
pub mod formats;
pub mod gif_laws;
pub mod guard_laws;
pub mod header_laws;
pub mod local_laws;
pub mod options;
pub mod order_laws;
pub mod output;
mod outside;
pub mod pieces;
pub mod plan_laws;
pub mod planned_laws;
pub mod progress;
pub mod rank_laws;
pub mod recovery;
pub mod recovery_laws;
pub mod report;
pub mod safety;
pub mod save_laws;
pub mod scan_laws;
pub mod scanner;
pub mod setting_laws;
pub mod signatures;
pub mod size_laws;
pub mod sizes;
pub mod sound_laws;
pub mod steady_laws;
pub mod text;
pub mod text_laws;
pub mod whole_laws;
