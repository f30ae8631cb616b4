//! The logic of a shared print queue: who may print what, when, and from which spool.

pub mod accounts;
pub mod app;
pub mod auth;
pub mod calendar;
pub mod camera;
pub mod cc2;
pub mod config;
pub mod decimal;
pub mod dispatcher;
pub mod fakeprinter;
pub mod float;
pub mod gcode;
pub mod inventory;
pub mod jobs;
pub mod json;
pub mod lists;
pub mod num;
pub mod order;
pub mod preview;
pub mod probe;
pub mod schedule;
pub mod slicer;
pub mod stats;
pub mod text;
pub mod web;
pub mod wiki;
pub mod zone;
