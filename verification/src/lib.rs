//! Resolution of a playable media URL for a requested episode and quality.
//!
//! The crate models the video-source extraction pipeline: embed-link
//! discovery, per-provider extraction strategies, adaptive-manifest
//! expansion, and quality-based candidate selection with graceful
//! multi-provider degradation.

pub mod catalog;
pub mod embed;
pub mod history;
pub mod manifest;
pub mod pipeline;
pub mod player;
pub mod provider;
pub mod quality;
pub mod text;
pub mod title;
pub mod urls;
pub mod util;
