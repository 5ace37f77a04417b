//! Decoding of ABR brush libraries into raster brush images.
//!
//! The [`abr`] module holds the two format decoders, the run-length codec they
//! share and the in-memory byte source they read from. The [`cli`] module
//! holds what the command line asks the program to do, and [`err`] what can be
//! wrong with it.

pub mod abr;
pub mod cli;
pub mod err;
