//! Verified core of a desk widget that tails the systemd journal.

pub mod text;
pub mod config;
pub mod output;
pub mod journal;
