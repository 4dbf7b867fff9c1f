//! The host's side of the driver: the values of its C interface, and the decisions of
//! the tool that drives a display through fullscreen transitions.

pub mod ffi;
pub mod stress;
