//! The interactive interface: its state, what its keys do, and what it shows.

pub mod app;
pub mod capture;
pub mod detail;
pub mod keys;
pub mod laws;
pub mod ui;
