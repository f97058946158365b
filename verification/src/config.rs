//! Process-wide settings: the configured repository source URLs, the
//! storage and temp directories, and the archive-retention policy. Loading
//! and persisting the settings file is the shell's business; the engine
//! only reads the values.

use vstd::prelude::*;

verus! {

/// The settings the engine runs under.
pub struct Config {
    pub repositories: Vec<String>,
    pub keep_package_files: bool,
    pub storage_dir: String,
    pub tmp_dir: String,
}

impl Config {
    pub fn new(
        repositories: Vec<String>,
        keep_package_files: bool,
        storage_dir: String,
        tmp_dir: String,
    ) -> (c: Config)
        ensures
            c.repositories == repositories,
            c.keep_package_files == keep_package_files,
            c.storage_dir == storage_dir,
            c.tmp_dir == tmp_dir,
    {
        Config { repositories, keep_package_files, storage_dir, tmp_dir }
    }
}

} // verus!
