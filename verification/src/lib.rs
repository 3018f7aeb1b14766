//! Client-side engine for the MultiWii Serial Protocol (MSP): byte-exact
//! frame encoding for the two wire formats, an incremental frame decoder
//! that survives arbitrary byte splits, and the session controller that
//! walks the telemetry request graph.

pub mod decoder;
pub mod laws;
pub mod msp;
pub mod session;
