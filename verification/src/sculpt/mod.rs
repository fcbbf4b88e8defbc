//! The sculpting workspace: layers, paint, estimates and edit history.
pub mod convert;
pub mod estimate;
pub mod export;
pub mod flood;
pub mod grid;
pub mod input;
pub mod laws;
pub mod layers;
pub mod modes;
pub mod packed;
pub mod paint;
pub mod panel;
pub mod parts;
pub mod report;
pub mod snapshot;
pub mod state;
pub mod terrain;
pub mod tiling;
pub mod world;
pub mod written;
