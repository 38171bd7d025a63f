//! Verified core of a controller for the STMAX FM transmitter: the text
//! protocol spoken over its serial line, and the state that the serial
//! controller keeps.
pub mod controller;
pub mod laws;
pub mod numbers;
pub mod operation;
pub mod protocol;
pub mod serial;
pub mod text;
pub mod ui_state;
