//! Portable core of a hardware digital twin: the sensor-profile text format,
//! the reduction plan that turns raw sensor readings into logical subsystems,
//! and the small decisions of the command-line and HTTP front ends.
pub mod cli;
pub mod json;
pub mod model;
pub mod profile;
pub mod text;
