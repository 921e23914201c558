//! What the library promises, operation by operation, said of what goes in and what comes out.

pub mod basics;
pub mod config;
pub mod contents;
pub mod event;
pub mod evidence;
pub mod gathering;
pub mod nodes;
pub mod records;
pub mod runs;
pub mod state;
pub mod submission;
pub mod texts;
pub mod walk;
