//! The engine's configuration: where downloads go, which podcasts to follow,
//! and how many jobs may run at once; and where the configuration file is
//! looked for.

use crate::paths::{join_path, join_spec};
use vstd::prelude::*;

verus! {

/// One followed podcast.
pub struct PodcastConfig {
    /// Podcast RSS feed URL.
    pub feed_url: String,
    /// Name of the podcast's directory, in place of the channel's own title.
    pub title: Option<String>,
}

/// The configuration that the engine runs on.
pub struct Config {
    /// Directory to download files to.
    pub download_dir: String,
    /// Podcasts that should be downloaded.
    pub podcast: Vec<PodcastConfig>,
    /// Most fetches or downloads in flight at once.
    pub max_parallel_downloads: Option<usize>,
}

/// Job limit used where the configuration sets none.
pub const DEFAULT_MAX_JOBS: usize = 5;

pub open spec fn max_jobs_spec(limit: Option<usize>) -> usize {
    match limit {
        Some(n) => if n == 0 {
            1
        } else {
            n
        },
        None => DEFAULT_MAX_JOBS,
    }
}

impl Config {
    /// The job limit of both stages: the configured one (at least one job),
    /// else the default.
    pub fn max_jobs(&self) -> (r: usize)
        ensures
            r == max_jobs_spec(self.max_parallel_downloads),
            r >= 1,
    {
        match self.max_parallel_downloads {
            Some(n) => if n == 0 {
                1
            } else {
                n
            },
            None => DEFAULT_MAX_JOBS,
        }
    }
}

/// Why no configuration file could be located.
#[derive(Clone, Copy, Debug, PartialEq, Eq, Structural)]
pub enum ConfigError {
    /// The platform names no configuration directory for the user.
    NoConfigDir,
}

/// The configuration file's place under the user's configuration directory.
pub open spec fn config_path_spec(base: Seq<char>) -> Seq<char> {
    join_spec(join_spec(base, "podcatcher-rs"@), "config.toml"@)
}

/// Relies on dirs::config_dir: the user's configuration directory, where
/// the platform names one whose path is text. What it returns depends on the
/// environment.
#[verifier::external_body]
fn user_config_dir() -> Option<String> {
    dirs::config_dir().and_then(|p| p.into_os_string().into_string().ok())
}

/// The configuration file's path under the directory `base`.
pub fn config_path_in(base: &str) -> (r: String)
    ensures
        r@ == config_path_spec(base@),
{
    let dir = join_path(base, "podcatcher-rs");
    join_path(dir.as_str(), "config.toml")
}

/// The configuration file's path under the user's configuration directory.
pub fn find_config_path() -> (r: Result<String, ConfigError>)
    ensures
        match r {
            Ok(p) => exists|base: Seq<char>| p@ == config_path_spec(base),
            Err(e) => e == ConfigError::NoConfigDir,
        },
{
    match user_config_dir() {
        Some(base) => Ok(config_path_in(base.as_str())),
        None => Err(ConfigError::NoConfigDir),
    }
}

} // verus!
