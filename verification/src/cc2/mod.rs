//! The printer's protocol: methods, status, uploads and discovery.

pub mod client;
pub mod discovery;
pub mod methods;
pub mod model;
pub mod read;
pub mod status;
pub mod upload;

pub use client::{ClientConfig, CommandError, LinkState, PrinterSnapshot, Timing};
