//! Dusklapse: the camera-control and timelapse-ramping logic, with its contracts.

pub mod camera;
pub mod text;
pub mod settings;
pub mod ramp;
