//! What the command line decides and prints: arguments, sweep plans, CSV
//! tables, expectations and progress.

pub mod args;
pub mod csv;
pub mod diagnose;
pub mod expect;
pub mod flow;
pub mod progress;
pub mod run;
pub mod tables;
