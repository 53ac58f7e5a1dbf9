//! Decision logic of a service that runs an image classifier for several
//! users, each request in a sandbox of its own, and of the classifier probe
//! that probes whether the sandbox holds.
//!
//! The library computes; the program around it performs the file, process
//! and system-call work that the computed plans describe.

pub mod classifier;
pub mod decimal;
pub mod path;
pub mod request;
pub mod sandbox;
pub mod service;
pub mod text;
