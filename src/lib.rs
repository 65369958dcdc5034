//! Synchronises a local media library with a set of podcast feeds: feed
//! parsing, download planning with deduplication by path, size reporting and
//! a bounded job scheduler, each with a verified contract.

pub mod config;
pub mod feed;
pub mod paths;
pub mod plan;
pub mod schedule;
pub mod size;

pub use config::{Config, PodcastConfig};
pub use plan::EpisodeDownload;
pub use size::to_human_size;
