//! Swap, zswap, zram and hibernation management.
pub mod advice;
pub mod exec;
pub mod hibernation;
pub mod persist;
pub mod ram_info;
pub mod stress;
pub mod swapfile;
pub mod sysctl;
pub mod types;
pub mod zram;
pub mod zswap;
