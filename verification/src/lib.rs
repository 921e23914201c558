//! Task telemetry: what a failed automation task reports, and what evidence goes with it.

pub mod bundle;
pub mod config;
pub mod discovery;
pub mod endings;
pub mod event;
pub mod evidence;
pub mod json;
pub mod laws;
pub mod logs;
pub mod map;
pub mod nodes;
pub mod order;
pub mod path;
pub mod records;
pub mod report;
pub mod runs;
pub mod sampling;
pub mod selection;
pub mod state;
pub mod submission;
pub mod text;
pub mod time;
pub mod version;
pub mod workers;
