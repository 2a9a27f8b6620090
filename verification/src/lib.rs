//! rmbujo: dot-grid bullet-journal generator for reMarkable devices.
//!
//! The library holds the calendar model, the ICS text handling and event
//! expansion, the page emitters (HTML and Typst) and the reMarkable cloud
//! deploy plans.
pub mod calendar;
pub mod text;
pub mod render;
pub mod ics;
pub mod deploy;
pub mod generate;
pub mod templates;
pub mod notebooks;
pub mod config;
