//! The web interface: what its pages show and what its forms do.

pub mod admin;
pub mod assets;
pub mod chart;
pub mod error;
pub mod filament;
pub mod forms;
pub mod help;
pub mod live;
pub mod pages;
pub mod queue;
pub mod schedule;
pub mod session;
pub mod stats;
pub mod storage;
pub mod upload;
pub mod views;
