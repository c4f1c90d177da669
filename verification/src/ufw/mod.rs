//! The firewall: its state read from `ufw`'s configuration files, the
//! commands that change it, and statistics from the kernel log.
pub mod types;
pub mod backend;
pub mod stats;
pub mod monitor;
pub mod ui;
