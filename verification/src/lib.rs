//! TransitPulse: whether a bus can be relied on at a stop, now.
//!
//! The library crosses the static timetable of the operator with what its
//! real-time feeds say, and decides. It reads and stores nothing itself: files,
//! databases and the network are those of the program around it, which hands
//! plain values in and takes plain values back.

pub mod api;
pub mod archive;
pub mod calendar;
pub mod domain;
pub mod gtfs;
pub mod index;
pub mod laws;
pub mod loader;
pub mod loading;
pub mod network;
pub mod order;
pub mod ratio;
pub mod realtime;
pub mod state;
pub mod status;
pub mod table;
pub mod text;
pub mod timetable;
pub mod today;
