//! Viewer settings.
use vstd::prelude::*;

verus! {

#[derive(Debug, Clone)]
pub struct Config {
    pub commit_limit: usize,
    pub delta_command: Option<String>,
}

impl Default for Config {
    fn default() -> (res: Self)
        ensures
            res.commit_limit == 500,
            res.delta_command is None,
    {
        Self { commit_limit: 500, delta_command: None }
    }
}

/// The settings read from the plugin's `config.toml`.
#[derive(Debug, Clone)]
pub struct FileConfig {
    pub commit_limit: Option<usize>,
    pub delta_command: Option<String>,
}

/// `n` held within `lo..=hi`.
pub open spec fn clamp(n: usize, lo: usize, hi: usize) -> usize {
    if n < lo {
        lo
    } else if n > hi {
        hi
    } else {
        n
    }
}

/// The configuration a config file gives, if one was read: the commit limit
/// held within 50..=5000, and a delta command only when it is not blank.
pub open spec fn config_spec(file: Option<FileConfig>, cfg: Config) -> bool {
    match file {
        None => cfg.commit_limit == 500 && cfg.delta_command is None,
        Some(f) => {
            &&& cfg.commit_limit == match f.commit_limit {
                Some(n) => clamp(n, 50, 5000),
                None => 500,
            }
            &&& match f.delta_command {
                Some(d) => if d@.len() == 0 {
                    cfg.delta_command is None
                } else {
                    cfg.delta_command == Some(d)
                },
                None => cfg.delta_command is None,
            }
        },
    }
}

/// Applies a read config file (or `None` when there is none or it does not
/// parse) to the defaults.
pub fn config_from_file(file: Option<FileConfig>) -> (cfg: Config)
    ensures
        config_spec(file, cfg),
{
    let mut cfg = Config::default();
    if let Some(f) = file {
        if let Some(n) = f.commit_limit {
            cfg.commit_limit = if n < 50 {
                50
            } else if n > 5000 {
                5000
            } else {
                n
            };
        }
        cfg.delta_command = match f.delta_command {
            Some(d) => if d.as_str().is_empty() {
                None
            } else {
                Some(d)
            },
            None => None,
        };
    }
    cfg
}

/// Falls back to `delta` on the `PATH` when no delta command is configured.
pub fn with_delta_fallback(cfg: Config, delta_on_path: bool) -> (res: Config)
    ensures
        res.commit_limit == cfg.commit_limit,
        res.delta_command == if cfg.delta_command is None && delta_on_path {
            Some(res.delta_command->0)
        } else {
            cfg.delta_command
        },
        cfg.delta_command is None && delta_on_path ==> res.delta_command->0@ == "delta"@,
{
    if cfg.delta_command.is_none() && delta_on_path {
        Config { commit_limit: cfg.commit_limit, delta_command: Some(String::from_str("delta")) }
    } else {
        cfg
    }
}

/// Whether the `PATH` needs to be searched for `delta`.
pub fn needs_delta_lookup(cfg: &Config) -> (res: bool)
    ensures
        res == cfg.delta_command is None,
{
    cfg.delta_command.is_none()
}

/// The commit limit of a config file is used as configured when it lies
/// within 50..=5000 and is held to the nearer bound otherwise; a file without
/// one gives the default of 500. Either way the limit lies within 50..=5000.
pub proof fn law_commit_limit_kept_in_range(f: FileConfig, cfg: Config)
    requires
        config_spec(Some(f), cfg),
    ensures
        match f.commit_limit {
            Some(n) => {
                &&& 50 <= n <= 5000 ==> cfg.commit_limit == n
                &&& n < 50 ==> cfg.commit_limit == 50
                &&& n > 5000 ==> cfg.commit_limit == 5000
            },
            None => cfg.commit_limit == 500,
        },
        50 <= cfg.commit_limit <= 5000,
{
}

} // verus!
