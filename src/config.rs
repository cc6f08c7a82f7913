//! The migration configuration: source and destination trees and tuning
//! values, stored as JSON under the source tree.
use vstd::prelude::*;
use vstd::string::*;

verus! {

/// Tuning values carried in the project configuration.
#[derive(Debug)]
pub struct Thresholds {
    pub large_directory_size: String,
    pub parallel_workers: u32,
}

/// The configuration of one migration.
#[derive(Debug)]
pub struct Config {
    pub source_path: String,
    pub dest_path: String,
    pub thresholds: Thresholds,
    pub rsync_flags: String,
    pub retry_attempts: u32,
    pub socket_retry_interval: u64,
}

/// `base` with the relative `component` added, as `Path::join` does on Unix:
/// a `/` goes between them unless `base` is empty or already ends with one.
pub open spec fn joined(base: Seq<char>, component: Seq<char>) -> Seq<char> {
    if base.len() == 0 || base.last() == '/' {
        base + component
    } else {
        base + seq!['/'] + component
    }
}

pub open spec fn project_dir_name() -> Seq<char> {
    seq!['.', 'f', 'r', 'e', 'i', 'g', 'h', 't']
}

pub open spec fn config_file_name() -> Seq<char> {
    project_dir_name() + seq!['/', 'c', 'o', 'n', 'f', 'i', 'g', '.', 'j', 's', 'o', 'n']
}

/// Relies on `Path::join` and on `Path::to_string_lossy`, which is exact on a
/// path built from two `str`s.
#[verifier::external_body]
pub(crate) fn join_path(base: &str, component: &str) -> (r: String)
    requires
        component@.len() > 0,
        component@[0] != '/',
    ensures
        r@ == joined(base@, component@),
{
    std::path::Path::new(base).join(component).to_string_lossy().into_owned()
}

impl Thresholds {
    pub fn duplicate(&self) -> (r: Thresholds)
        ensures
            r.large_directory_size@ == self.large_directory_size@,
            r.parallel_workers == self.parallel_workers,
    {
        Thresholds {
            large_directory_size: self.large_directory_size.clone(),
            parallel_workers: self.parallel_workers,
        }
    }
}

impl Config {
    /// The configuration a new project starts with.
    pub open spec fn is_default_for(&self, source: Seq<char>, dest: Seq<char>) -> bool {
        &&& self.source_path@ == source
        &&& self.dest_path@ == dest
        &&& self.thresholds.large_directory_size@ == seq!['3', 'G', 'B']
        &&& self.thresholds.parallel_workers == 5
        &&& self.rsync_flags@ == seq![
            '-', 'a', 'v', 'x', 'H', 'A', 'X', ' ', '-', '-', 'n', 'u', 'm', 'e', 'r', 'i', 'c',
            '-', 'i', 'd', 's', ' ', '-', '-', 'c', 'o', 'm', 'p', 'r', 'e', 's', 's',
        ]
        &&& self.retry_attempts == 3
        &&& self.socket_retry_interval == 10
    }

    /// Every field equal.
    pub open spec fn same_as(&self, other: &Config) -> bool {
        &&& self.source_path@ == other.source_path@
        &&& self.dest_path@ == other.dest_path@
        &&& self.thresholds.large_directory_size@ == other.thresholds.large_directory_size@
        &&& self.thresholds.parallel_workers == other.thresholds.parallel_workers
        &&& self.rsync_flags@ == other.rsync_flags@
        &&& self.retry_attempts == other.retry_attempts
        &&& self.socket_retry_interval == other.socket_retry_interval
    }

    /// The default configuration for a migration from `source` to `dest`.
    pub fn default_with_paths(source: &str, dest: &str) -> (r: Config)
        ensures
            r.is_default_for(source@, dest@),
    {
        proof {
            reveal_strlit("3GB");
            reveal_strlit("-avxHAX --numeric-ids --compress");
        }
        let r = Config {
            source_path: String::from_str(source),
            dest_path: String::from_str(dest),
            thresholds: Thresholds {
                large_directory_size: String::from_str("3GB"),
                parallel_workers: 5,
            },
            rsync_flags: String::from_str("-avxHAX --numeric-ids --compress"),
            retry_attempts: 3,
            socket_retry_interval: 10,
        };
        assert(r.thresholds.large_directory_size@ =~= seq!['3', 'G', 'B']);
        assert(r.rsync_flags@ =~= seq![
            '-', 'a', 'v', 'x', 'H', 'A', 'X', ' ', '-', '-', 'n', 'u', 'm', 'e', 'r', 'i', 'c',
            '-', 'i', 'd', 's', ' ', '-', '-', 'c', 'o', 'm', 'p', 'r', 'e', 's', 's',
        ]);
        r
    }

    /// A copy of the configuration.
    pub fn duplicate(&self) -> (r: Config)
        ensures
            r.same_as(self),
    {
        Config {
            source_path: self.source_path.clone(),
            dest_path: self.dest_path.clone(),
            thresholds: self.thresholds.duplicate(),
            rsync_flags: self.rsync_flags.clone(),
            retry_attempts: self.retry_attempts,
            socket_retry_interval: self.socket_retry_interval,
        }
    }

    /// The project directory `.freight` under the source tree.
    pub fn freight_dir(&self) -> (r: String)
        ensures
            r@ == joined(self.source_path@, project_dir_name()),
    {
        proof {
            reveal_strlit(".freight");
            assert(".freight"@ =~= project_dir_name());
        }
        join_path(self.source_path.as_str(), ".freight")
    }

    /// Where the configuration of the project at `source` is stored.
    pub fn config_path(source: &str) -> (r: String)
        ensures
            r@ == joined(source@, config_file_name()),
    {
        proof {
            reveal_strlit(".freight/config.json");
            assert(".freight/config.json"@ =~= config_file_name());
        }
        join_path(source, ".freight/config.json")
    }

    /// Chooses the configuration of a migration from the one stored at
    /// `config_path(source)`, if any: a stored one is used as it is; without
    /// one, the default for `source` and `dest` is used and must be saved
    /// (the second result).
    pub fn load_or_create(source: &str, dest: &str, stored: Option<Config>) -> (r: (Config, bool))
        ensures
            match stored {
                Some(c) => r.0 == c && !r.1,
                None => r.0.is_default_for(source@, dest@) && r.1,
            },
    {
        match stored {
            Some(c) => (c, false),
            None => (Config::default_with_paths(source, dest), true),
        }
    }
}

} // verus!
