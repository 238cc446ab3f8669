//! Verified core of a status-bar widget pair: a date widget that renders
//! the current local date, and a live-window-observation widget that
//! extracts a notification count from a window title and caches it for a
//! bounded interval.

pub mod date;
pub mod discord;
pub mod text;
