//! Fan-speed control library.
//!
//! The heart of the library is a per-fan temperature-to-power curve:
//! an unordered collection of breakpoints, each pairing a temperature
//! (whole degrees Celsius) with a fan power percentage.  Around it sit
//! the pieces a fan-control daemon needs: parsing of textual curve
//! descriptions, a name-keyed configuration store, hardware-mapping
//! change detection, device-path resolution over probed name files,
//! the PWM duty-cycle conversions, the retry policy for switching a
//! fan's control mode, and a thread-safe controller facade.
//!
//! All file, network and process plumbing lives outside this crate;
//! the functions here compute over plain values and carry contracts.

pub mod actuator;
pub mod api;
pub mod cli;
pub mod config;
pub mod controller;
pub mod curve;
pub mod paths;
pub mod resolve;
pub mod text;
