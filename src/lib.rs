//! Summaries of a user's programming-language usage across repositories:
//! per-repository language sizes are aggregated into one table, the largest
//! languages are ranked, and the ranking is drawn as a bar chart in SVG.
#![allow(non_snake_case)]

pub mod error;
pub mod github;
pub mod profile;
pub mod text;
pub mod usage;
