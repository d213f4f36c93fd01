//! The managed directory layout and the persisted settings: where the
//! configuration, cache and managed files live, and where the track file
//! is found.

use vstd::prelude::*;

use crate::error::{ErrorModel, PollenError};
use crate::paths::{is_absolute, path_join, spec_is_absolute, spec_join};

verus! {

/// Persisted settings.  Every field is optional; absent fields fall back
/// to the defaults below.
#[derive(Debug)]
pub struct PollenConfig {
    /// The track file name, relative to the configuration directory
    /// unless absolute.
    pub default_track_file: Option<String>,
    /// Verbose output by default.
    pub verbose: Option<bool>,
    /// A home directory override.
    pub home_override: Option<String>,
    /// Cache expiration in seconds.
    pub cache_expiration: Option<u64>,
    /// Cap on cached entries.
    pub max_cache_entries: Option<usize>,
    /// Commit the managed directory after a successful run.
    pub auto_commit: Option<bool>,
    /// The message for such commits.
    pub auto_commit_message: Option<String>,
}

impl Default for PollenConfig {
    /// The default settings.
    fn default() -> (r: Self)
        ensures
            r.default_track_file matches Some(t) && t@ == "track.yaml"@,
            r.verbose == Some(false),
            r.home_override is None,
            r.cache_expiration == Some(86400u64),
            r.max_cache_entries == Some(100usize),
            r.auto_commit == Some(false),
            r.auto_commit_message matches Some(m) && m@ == "Pollen auto-sync"@,
    {
        PollenConfig {
            default_track_file: Some(String::from_str("track.yaml")),
            verbose: Some(false),
            home_override: None,
            cache_expiration: Some(86400),
            max_cache_entries: Some(100),
            auto_commit: Some(false),
            auto_commit_message: Some(String::from_str("Pollen auto-sync")),
        }
    }
}

/// The directory layout: one base directory holding the cache, the
/// managed files, the track file and the settings file.
#[derive(Debug)]
pub struct PollenDirs {
    /// The base configuration directory.
    pub config_dir: String,
    /// Backups live here.
    pub cache_dir: String,
    /// Managed copies live here.
    pub files_dir: String,
    /// The default track file.
    pub track_file: String,
    /// The settings file.
    pub pollen_config_file: String,
}

impl PollenDirs {
    /// Lay out the directories under an explicit base, or under the home
    /// directory when none is given.  Fails when neither is available.
    pub fn new(pollen_dir: Option<String>, home_dir: Option<String>) -> (r: Result<
        PollenDirs,
        PollenError,
    >)
        ensures
            r is Err <==> pollen_dir is None && home_dir is None,
            r is Err ==> r->Err_0@ == ErrorModel::HomeDirectoryNotSet,
            r is Ok ==> ({
                let base = if pollen_dir is Some {
                    pollen_dir->0@
                } else {
                    spec_join(spec_join(home_dir->0@, ".config"@), "pollen"@)
                };
                &&& r->Ok_0.config_dir@ == base
                &&& r->Ok_0.cache_dir@ == spec_join(base, "cache"@)
                &&& r->Ok_0.files_dir@ == spec_join(base, "files"@)
                &&& r->Ok_0.track_file@ == spec_join(base, "track.yaml"@)
                &&& r->Ok_0.pollen_config_file@ == spec_join(base, "pollen.yaml"@)
            }),
    {
        let config_dir: String = match pollen_dir {
            Some(p) => p,
            None => match home_dir {
                Some(h) => path_join(path_join(h.as_str(), ".config").as_str(), "pollen"),
                None => {
                    return Err(PollenError::HomeDirectoryNotSet);
                },
            },
        };
        let cache_dir = path_join(config_dir.as_str(), "cache");
        let files_dir = path_join(config_dir.as_str(), "files");
        let track_file = path_join(config_dir.as_str(), "track.yaml");
        let pollen_config_file = path_join(config_dir.as_str(), "pollen.yaml");
        Ok(PollenDirs { config_dir, cache_dir, files_dir, track_file, pollen_config_file })
    }

    /// The track file to read: the configured one — absolute, or relative
    /// to the configuration directory — or the default.
    pub fn get_track_file_path(&self, config: &PollenConfig) -> (r: String)
        ensures
            match config.default_track_file {
                Some(t) => r@ == if spec_is_absolute(t@) {
                    t@
                } else {
                    spec_join(self.config_dir@, t@)
                },
                None => r@ == self.track_file@,
            },
    {
        match &config.default_track_file {
            Some(t) => {
                if is_absolute(t.as_str()) {
                    t.clone()
                } else {
                    path_join(self.config_dir.as_str(), t.as_str())
                }
            },
            None => self.track_file.clone(),
        }
    }

    /// The cache file for a key.
    pub fn get_cache_file_path(&self, key: &str) -> (r: String)
        ensures
            r@ == spec_join(self.cache_dir@, key@ + ".cache"@),
    {
        let file = key.to_owned().concat(".cache");
        path_join(self.cache_dir.as_str(), file.as_str())
    }

    /// The managed-directory location of a filename.
    pub fn get_files_path(&self, filename: &str) -> (r: String)
        ensures
            r@ == spec_join(self.files_dir@, filename@),
    {
        path_join(self.files_dir.as_str(), filename)
    }
}

} // verus!
