//! Signal-path and control logic of an RTL-SDR FM receiver with a terminal
//! spectrum view and an RDS bit log.
//!
//! Floating-point sample arithmetic (mixing, FFT, demodulation) lives with the
//! application; this crate holds the index, buffering, decimation and
//! control-state logic around it, with contracts.
pub mod fir;
pub mod audio;
pub mod rds;
pub mod control;
pub mod input;
pub mod spectrum;
