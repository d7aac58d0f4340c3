//! What the operations are for, said of what goes in and what comes out.

pub mod answers;
pub mod basics;
pub mod cancelled;
pub mod capture;
pub mod communes;
pub mod cycles;
pub mod files;
pub mod questions;
pub mod rows;
pub mod services;
pub mod stops;
pub mod texts;
pub mod timetables;
pub mod verdicts;
