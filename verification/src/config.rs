//! The configuration: the URL of the recipe repository.

use vstd::prelude::*;
use crate::text::{join_path, path_join};

verus! {

/// The configuration of the package manager.
#[derive(Debug)]
pub struct RavenConfig {
    pub repo_url: String,
}

/// The URL of the recipe repository where none is configured.
pub open spec fn default_repo_url() -> Seq<char> {
    "https://github.com/lear94/raven-recipes.git"@
}

impl Default for RavenConfig {
    fn default() -> (r: Self)
        ensures
            r.repo_url@ == default_repo_url(),
    {
        RavenConfig { repo_url: "https://github.com/lear94/raven-recipes.git".to_owned() }
    }
}

impl Clone for RavenConfig {
    fn clone(&self) -> (r: Self)
        ensures
            r.repo_url@ == self.repo_url@,
    {
        RavenConfig { repo_url: self.repo_url.clone() }
    }
}

/// A configuration, and whether it has yet to be written to its file.
#[derive(Debug)]
pub struct LoadedConfig {
    pub config: RavenConfig,
    pub must_save: bool,
}

/// Knows where the configuration file is.
#[derive(Debug)]
pub struct ConfigManager {
    pub path: String,
}

impl ConfigManager {
    /// The manager of the file `config.toml` below `root`.
    pub fn new(root: &str) -> (r: Self)
        ensures
            r.path@ == join_path(root@, "config.toml"@),
    {
        ConfigManager { path: path_join(root, "config.toml") }
    }

    /// The configuration in force, given what the file held: the stored
    /// one, or the default, which is then to be saved, where there was no
    /// file.
    pub fn load(&self, stored: Option<RavenConfig>) -> (r: LoadedConfig)
        ensures
            match stored {
                Some(c) => r.config.repo_url@ == c.repo_url@ && !r.must_save,
                None => r.config.repo_url@ == default_repo_url() && r.must_save,
            },
    {
        match stored {
            Some(config) => LoadedConfig { config, must_save: false },
            None => LoadedConfig { config: RavenConfig::default(), must_save: true },
        }
    }

    /// The configuration with the repository URL set to `url`.
    pub fn set_repo(config: &RavenConfig, url: &str) -> (r: RavenConfig)
        ensures
            r.repo_url@ == url@,
    {
        RavenConfig { repo_url: url.to_owned() }
    }
}

} // verus!
