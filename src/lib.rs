//! Planning and text handling for tuning NVIDIA GPUs: the parameter sets and
//! the device calls they stand for, the command line that reapplies them, the
//! service unit that runs it at boot and the parser that reads it back.

pub mod command;
pub mod decimal;
pub mod form;
pub mod gpus;
pub mod launch;
pub mod params;
pub mod round_trip;
pub mod service;
pub mod text;
