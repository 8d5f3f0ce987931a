//! Core logic for a pull-request tray application: classification of raw
//! pull-request records into workflow buckets, snapshot diffing that drives
//! notifications, and a deterministic avatar image pipeline (circular
//! masking and identicon synthesis).

pub mod avatar;
pub mod config;
pub mod github;
pub mod models;
pub mod state;
pub mod text;
