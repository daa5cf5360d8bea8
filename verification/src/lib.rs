//! Netchecker: why the internet does not work, layer by layer.
//!
//! The crate holds everything that the program decides: how packets are
//! built and read, what a probe proves, which verdict the observations add up
//! to and what the user is told. Sockets, windows and files stay outside; they
//! hand plain values in and take plain values back.

pub mod text;
pub mod scan;
pub mod net;
pub mod time;
pub mod logo;
pub mod model;
pub mod bus;
pub mod privileged;
pub mod bytes;
pub mod engine;
pub mod monitor;
pub mod report;
pub mod settings;
pub mod targets;
pub mod tray;
pub mod ui;
