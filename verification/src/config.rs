//! Where the config directory is, and what was loaded from it.
//!
//! Resolution order (first match wins): the `--config` path, the
//! `COLORLS_CONFIG` environment variable, `<platform config dir>/colorls`,
//! then `$HOME/.config/colorls`. A path that names a file (such as a
//! `config.yaml`) stands for the directory holding it.

use vstd::prelude::*;
use crate::path::join_paths;
use crate::text::{opt_view, spec_trim, trim};
use crate::theme::UserConfig;

verus! {

broadcast use vstd::string::group_string_axioms;

/// A candidate config path, with what the file system says of it: whether
/// it is a file, and its parent (`Path::parent`).
pub struct DirCandidate {
    pub path: String,
    pub is_file: bool,
    pub parent: Option<String>,
}

/// The directory a candidate stands for: its parent when it names a file
/// (and has a parent), else itself.
pub open spec fn spec_normalize_dir(c: DirCandidate) -> Seq<char> {
    if c.is_file && c.parent is Some {
        c.parent->0@
    } else {
        c.path@
    }
}

/// The directory a candidate stands for (see `spec_normalize_dir`).
pub fn normalize_dir(c: &DirCandidate) -> (res: String)
    ensures
        res@ == spec_normalize_dir(*c),
{
    if c.is_file {
        if let Option::Some(p) = &c.parent {
            return p.clone();
        }
    }
    c.path.clone()
}

/// The config directory: the `--config` path, else a non-blank
/// `COLORLS_CONFIG`, else `<platform config dir>/colorls`, else a non-blank
/// `$HOME` joined with `.config/colorls`, else none.
pub open spec fn spec_resolve_config_dir(
    cli_override: Option<DirCandidate>,
    env_override: Option<DirCandidate>,
    platform_config_dir: Option<String>,
    home: Option<String>,
) -> Option<Seq<char>> {
    if cli_override is Some {
        Option::Some(spec_normalize_dir(cli_override->0))
    } else if env_override is Some && spec_trim(env_override->0.path@).len() > 0 {
        Option::Some(spec_normalize_dir(env_override->0))
    } else if platform_config_dir is Some {
        Option::Some(crate::path::join_path(platform_config_dir->0@, "colorls"@))
    } else if home is Some && spec_trim(home->0@).len() > 0 {
        Option::Some(
            crate::path::join_path(crate::path::join_path(home->0@, ".config"@), "colorls"@),
        )
    } else {
        Option::None
    }
}

/// Resolve the config directory (see `spec_resolve_config_dir`).
pub fn resolve_config_dir(
    cli_override: Option<DirCandidate>,
    env_override: Option<DirCandidate>,
    platform_config_dir: Option<String>,
    home: Option<String>,
) -> (res: Option<String>)
    ensures
        opt_view(res) == spec_resolve_config_dir(cli_override, env_override, platform_config_dir, home),
{
    if let Option::Some(c) = &cli_override {
        return Option::Some(normalize_dir(c));
    }
    if let Option::Some(e) = &env_override {
        if !trim(e.path.as_str()).is_empty() {
            return Option::Some(normalize_dir(e));
        }
    }
    if let Option::Some(d) = &platform_config_dir {
        return Option::Some(join_paths(d.as_str(), "colorls"));
    }
    if let Option::Some(h) = &home {
        if !trim(h.as_str()).is_empty() {
            let dot_config = join_paths(h.as_str(), ".config");
            return Option::Some(join_paths(dot_config.as_str(), "colorls"));
        }
    }
    Option::None
}

/// The resolved config directory and the settings read from its `config.yaml`.
pub struct ResolvedConfig {
    pub dir: Option<String>,
    pub settings: UserConfig,
}

/// The config directory `dir` with its settings: those read from its
/// `config.yaml` when one was read, no setting at all otherwise (no
/// directory, or no `config.yaml` in it).
pub fn load(dir: Option<String>, settings: Option<UserConfig>) -> (res: ResolvedConfig)
    ensures
        opt_view(res.dir) == opt_view(dir),
        settings matches Option::Some(s) ==> res.settings == s,
        settings is None ==> res.settings.theme is None && res.settings.icons is None
            && res.settings.git_status is None && res.settings.group_directories_first is None
            && res.settings.sort_files_first is None && res.settings.report is None
            && res.settings.tree_depth is None && res.settings.long is None && res.settings.all is None,
{
    let settings = match settings {
        Option::Some(s) => s,
        Option::None => UserConfig::default(),
    };
    ResolvedConfig { dir, settings }
}


/// `--config` wins over every other source.
pub proof fn lemma_cli_config_wins(
    c: DirCandidate,
    env_override: Option<DirCandidate>,
    platform_config_dir: Option<String>,
    home: Option<String>,
)
    ensures
        spec_resolve_config_dir(Option::Some(c), env_override, platform_config_dir, home) == Option::Some(
            spec_normalize_dir(c),
        ),
{
}

/// Without `--config`, a non-blank `COLORLS_CONFIG` wins over the platform
/// directory and `$HOME`.
pub proof fn lemma_env_config_wins(e: DirCandidate, platform_config_dir: Option<String>, home: Option<String>)
    requires
        spec_trim(e.path@).len() > 0,
    ensures
        spec_resolve_config_dir(Option::None, Option::Some(e), platform_config_dir, home) == Option::Some(
            spec_normalize_dir(e),
        ),
{
}

} // verus!
