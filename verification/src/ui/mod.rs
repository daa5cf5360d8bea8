//! What the window shows, without the window: texts, colours and decisions.

pub mod theme;
pub mod app;
pub mod monitor_tab;
pub mod report_tab;
pub mod settings_tab;
pub mod targets_tab;
pub mod topology;
