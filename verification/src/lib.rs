//! Verified core of the HUD system dashboard: rolling sensor histories,
//! energy-counter sampling, disk selection, clock and speed text, the choice
//! of the HUD monitor and the per-frame decisions of the dashboard window.

pub mod cli;
pub mod clock;
pub mod disks;
pub mod schedule;
pub mod sensors;
pub mod text;
pub mod ui;
pub mod window;
