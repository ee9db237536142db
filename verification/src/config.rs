//! Configuration: what `.rewind.toml` sets, and what holds without it.

use vstd::prelude::*;

use crate::error::ErrorView;
use crate::error::RewindError;
use crate::text;

verus! {

/// The name of the configuration file of a repository.
pub const CONFIG_FILE: &'static str = ".rewind.toml";

/// Files larger than this many bytes are not tracked, unless configured.
pub const DEFAULT_MAX_FILE_SIZE: u64 = 1_048_576;

/// Seconds before a test run is cancelled, unless configured. 0 means never.
pub const DEFAULT_TEST_TIMEOUT_SECS: u64 = 0;

/// The configuration of a repository.
#[derive(Debug, PartialEq, Eq)]
pub struct Config {
    /// The command that runs the tests, interpreted by the shell.
    pub test_command: Option<String>,
    /// Files larger than this many bytes are not tracked.
    pub max_file_size: u64,
    /// Patterns of files that are not tracked, besides the built-in ones.
    pub ignore: Vec<String>,
    /// Seconds before a test run is cancelled. 0 means never.
    pub test_timeout_secs: u64,
    /// Whether files that look like secrets are tracked all the same.
    pub track_secrets: bool,
}

impl Default for Config {
    fn default() -> (r: Config)
        ensures
            r.test_command is None,
            r.max_file_size == DEFAULT_MAX_FILE_SIZE,
            r.ignore@.len() == 0,
            r.test_timeout_secs == DEFAULT_TEST_TIMEOUT_SECS,
            !r.track_secrets,
    {
        Config {
            test_command: None,
            max_file_size: DEFAULT_MAX_FILE_SIZE,
            ignore: Vec::new(),
            test_timeout_secs: DEFAULT_TEST_TIMEOUT_SECS,
            track_secrets: false,
        }
    }
}

/// What was found of a configuration file.
#[derive(Debug, PartialEq, Eq)]
pub enum ConfigFile {
    /// There is none.
    Absent,
    /// It could not be read.
    Unreadable(String),
    /// It is not a configuration.
    Malformed(String),
    /// It says this.
    Parsed(Config),
}

/// Why no file of size 0 may be the largest.
pub open spec fn size_refusal() -> ErrorView {
    ErrorView::Config("max_file_size must be greater than zero"@)
}

impl Config {
    /// The configuration that a file gives: the defaults if there is none, and
    /// an error, never silence, if it cannot be used.
    pub fn load(file: ConfigFile) -> (r: Result<Config, RewindError>)
        ensures
            match file {
                ConfigFile::Absent => r matches Ok(c) && {
                    &&& c.test_command is None
                    &&& c.max_file_size == DEFAULT_MAX_FILE_SIZE
                    &&& c.ignore@.len() == 0
                    &&& c.test_timeout_secs == DEFAULT_TEST_TIMEOUT_SECS
                    &&& !c.track_secrets
                },
                ConfigFile::Unreadable(m) => r matches Err(e) && e@ == ErrorView::Io(m@),
                ConfigFile::Malformed(m) => r matches Err(e) && e@ == ErrorView::Toml(m@),
                ConfigFile::Parsed(c) => if c.max_file_size > 0 {
                    r == Ok::<Config, RewindError>(c)
                } else {
                    r matches Err(e) && e@ == size_refusal()
                },
            },
    {
        match file {
            ConfigFile::Absent => Ok(Config::default()),
            ConfigFile::Unreadable(m) => Err(RewindError::Io(m)),
            ConfigFile::Malformed(m) => Err(RewindError::Toml(m)),
            ConfigFile::Parsed(c) => match c.validate() {
                Ok(()) => Ok(c),
                Err(e) => Err(e),
            },
        }
    }

    /// Whether the configuration can be used.
    pub fn validate(&self) -> (r: Result<(), RewindError>)
        ensures
            match r {
                Ok(()) => self.max_file_size > 0,
                Err(e) => self.max_file_size == 0 && e@ == size_refusal(),
            },
    {
        if self.max_file_size == 0 {
            return Err(
                RewindError::Config("max_file_size must be greater than zero".to_string()),
            );
        }
        Ok(())
    }

    /// What the user is warned of: that files which look like secrets are
    /// tracked, if they are.
    pub fn warning(&self) -> (r: Option<String>)
        ensures
            match r {
                Some(s) => self.track_secrets && s@
                    == "warning: track_secrets is on — files that look like secrets are snapshotted too"@,
                None => !self.track_secrets,
            },
    {
        if self.track_secrets {
            Some(
                "warning: track_secrets is on — files that look like secrets are snapshotted too".to_string(),
            )
        } else {
            None
        }
    }
}

/// Patterns of files that commonly hold secrets.
pub open spec fn secret_patterns() -> Seq<Seq<char>> {
    seq![
        ".env"@,
        ".env.*"@,
        "*.pem"@,
        "*.key"@,
        "*.keystore"@,
        "*.p12"@,
        "*.pfx"@,
        "id_rsa"@,
        "id_dsa"@,
        "id_ecdsa"@,
        "id_ed25519"@,
        "*.der"@,
        "credentials"@,
        ".netrc"@,
        ".pgpass"@,
        ".htpasswd"@,
        "secrets.yml"@,
        "secrets.yaml"@,
        "*_rsa"@,
    ]
}

/// Patterns of files that commonly hold secrets.
pub fn secret_pattern_list() -> (r: [&'static str; 19])
    ensures
        text::strs(r@) == secret_patterns(),
{
    let r: [&'static str; 19] = [
        ".env",
        ".env.*",
        "*.pem",
        "*.key",
        "*.keystore",
        "*.p12",
        "*.pfx",
        "id_rsa",
        "id_dsa",
        "id_ecdsa",
        "id_ed25519",
        "*.der",
        "credentials",
        ".netrc",
        ".pgpass",
        ".htpasswd",
        "secrets.yml",
        "secrets.yaml",
        "*_rsa",
    ];
    proof {
        assert(text::strs(r@) =~= secret_patterns());
    }
    r
}

/// Names of directories that are never tracked: dependencies, build outputs,
/// virtual environments, caches, and the internals of version control.
pub open spec fn default_ignored_dirs() -> Seq<Seq<char>> {
    seq![
        ".git"@,
        ".hg"@,
        ".svn"@,
        ".rewind"@,
        ".rewind-report"@,
        "node_modules"@,
        "bower_components"@,
        "vendor"@,
        "target"@,
        "dist"@,
        "build"@,
        "out"@,
        ".next"@,
        ".nuxt"@,
        ".svelte-kit"@,
        "__pycache__"@,
        ".venv"@,
        "venv"@,
        "env"@,
        ".env.d"@,
        ".tox"@,
        ".mypy_cache"@,
        ".pytest_cache"@,
        ".ruff_cache"@,
        ".gradle"@,
        ".idea"@,
        ".vscode"@,
        "coverage"@,
        ".cache"@,
        ".parcel-cache"@,
        "DerivedData"@,
        "Pods"@,
        ".terraform"@,
        "elm-stuff"@,
    ]
}

/// Names of directories that are never tracked.
pub fn default_ignored_dir_list() -> (r: [&'static str; 34])
    ensures
        text::strs(r@) == default_ignored_dirs(),
{
    let r: [&'static str; 34] = [
        ".git",
        ".hg",
        ".svn",
        ".rewind",
        ".rewind-report",
        "node_modules",
        "bower_components",
        "vendor",
        "target",
        "dist",
        "build",
        "out",
        ".next",
        ".nuxt",
        ".svelte-kit",
        "__pycache__",
        ".venv",
        "venv",
        "env",
        ".env.d",
        ".tox",
        ".mypy_cache",
        ".pytest_cache",
        ".ruff_cache",
        ".gradle",
        ".idea",
        ".vscode",
        "coverage",
        ".cache",
        ".parcel-cache",
        "DerivedData",
        "Pods",
        ".terraform",
        "elm-stuff",
    ];
    proof {
        assert(text::strs(r@) =~= default_ignored_dirs());
    }
    r
}

} // verus!
