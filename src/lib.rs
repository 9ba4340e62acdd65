//! Log-stream handling and tool-output interpretation for a console that
//! programs an FPGA over JTAG and watches the JTAG UART of the running design.
//!
//! Every function here is pure: the processes, the pipes and the logger live
//! with the caller, which hands the library bytes and acts on what it returns.

pub mod classify;
pub mod devices;
pub mod drain;
pub mod lines;
pub mod patterns;
pub mod programming;
pub mod supervisor;
pub mod text;
