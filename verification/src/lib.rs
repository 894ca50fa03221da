//! A compact ping monitor: rolling statistics, outage tracking, the status
//! panel, the JSON log and the outage hooks.

pub mod display;
pub mod fit;
pub mod history;
pub mod hooks;
pub mod mean;
pub mod panel;
pub mod pinger;
pub mod recorder;
pub mod screen;
pub mod session;
pub mod stats;
pub mod text;
pub mod time;
