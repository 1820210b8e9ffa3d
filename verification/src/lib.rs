//! A verified library that turns a GitHub account's contribution data into the
//! figures of a profile card, and frames the card's screenshot as an SVG file.

pub mod activity;
pub mod calendar;
pub mod config;
pub mod export;
pub mod focus;
pub mod languages;
pub mod laws;
pub mod page;
pub mod query;
pub mod ranking;
pub mod stats;
pub mod text;
