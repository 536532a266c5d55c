//! A hub for networked cameras: topic routing for the status bus, the camera
//! registry with its live-frame fan-out, and reassembly of chunked UDP frames.

pub mod bus;
pub mod json;
pub mod multipart;
pub mod router;
pub mod state;
pub mod stream;
pub mod topic;
pub mod utils;
