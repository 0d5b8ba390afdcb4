use colorls::cli::{color_enabled, Cli, ColorWhen};
use colorls::config::{load, normalize_dir, resolve_config_dir, DirCandidate};
use colorls::path::{join_paths, normalize_path};
use colorls::theme::UserConfig;

fn cand(path: &str, is_file: bool, parent: Option<&str>) -> DirCandidate {
    DirCandidate { path: path.to_string(), is_file, parent: parent.map(|p| p.to_string()) }
}

#[test]
fn config_file_stands_for_its_directory() {
    assert_eq!(normalize_dir(&cand("/c/config.yaml", true, Some("/c"))), "/c");
    assert_eq!(normalize_dir(&cand("/c", false, Some("/"))), "/c");
    assert_eq!(normalize_dir(&cand("config.yaml", true, None)), "config.yaml");
}

#[test]
fn config_dir_resolution_order() {
    let cli = || Some(cand("/from/cli", false, Some("/from")));
    let env = || Some(cand("/from/env", false, Some("/from")));
    let blank_env = || Some(cand("  ", false, None));
    let platform = || Some("/home/u/.config".to_string());
    let home = || Some("/home/u".to_string());
    assert_eq!(resolve_config_dir(cli(), env(), platform(), home()), Some("/from/cli".to_string()));
    assert_eq!(resolve_config_dir(None, env(), platform(), home()), Some("/from/env".to_string()));
    assert_eq!(resolve_config_dir(None, blank_env(), platform(), home()), Some("/home/u/.config/colorls".to_string()));
    assert_eq!(resolve_config_dir(None, blank_env(), None, home()), Some("/home/u/.config/colorls".to_string()));
    assert_eq!(resolve_config_dir(None, None, None, Some(" ".to_string())), None);
    assert_eq!(resolve_config_dir(None, blank_env(), None, None), None);
    let file_cli = Some(cand("/c/config.yaml", true, Some("/c")));
    assert_eq!(resolve_config_dir(file_cli, env(), platform(), home()), Some("/c".to_string()));
}

#[test]
fn loaded_settings_or_none() {
    let given = UserConfig { long: Some(true), ..UserConfig::default() };
    let resolved = load(Some("/c".to_string()), Some(given));
    assert_eq!(resolved.dir, Some("/c".to_string()));
    assert_eq!(resolved.settings.long, Some(true));
    let empty = load(None, None);
    assert_eq!(empty.dir, None);
    assert_eq!(empty.settings.long, None);
    assert_eq!(empty.settings.icons, None);
}

#[test]
fn command_line_flags_win_over_settings() {
    let settings = UserConfig {
        theme: Some("LIGHT".to_string()),
        git_status: Some(true),
        report: Some(false),
        long: Some(true),
        all: Some(true),
        tree_depth: Some(0),
        ..UserConfig::default()
    };
    let mut cli = Cli { report: true, tree: Some(0), almost_all: true, ..Cli::default() };
    cli.apply_settings(&settings);
    assert!(cli.light);
    assert!(cli.git_status);
    assert!(cli.report);
    assert!(cli.long);
    assert!(!cli.all);
    assert_eq!(cli.tree, Some(1));
    let mut dark = Cli { dark: true, tree: Some(2), ..Cli::default() };
    dark.apply_settings(&settings);
    assert!(!dark.light);
    assert!(dark.all);
    assert_eq!(dark.tree, Some(2));
    let mut bare = Cli { tree: Some(0), ..Cli::default() };
    bare.apply_settings(&UserConfig::default());
    assert_eq!(bare.tree, Some(3));
    assert!(!bare.long);
}

#[test]
fn icons_and_colors_choice() {
    let cli = Cli::default();
    assert!(cli.icons_enabled(&UserConfig::default()));
    assert!(!cli.icons_enabled(&UserConfig { icons: Some(false), ..UserConfig::default() }));
    let forced = Cli { icons: true, ..Cli::default() };
    assert!(forced.icons_enabled(&UserConfig { icons: Some(false), ..UserConfig::default() }));
    let off = Cli { no_icons: true, icons: true, ..Cli::default() };
    assert!(!off.icons_enabled(&UserConfig::default()));
    assert!(color_enabled(ColorWhen::Always, false, false));
    assert!(!color_enabled(ColorWhen::Never, true, true));
    assert!(color_enabled(ColorWhen::Auto, true, false));
    assert!(!color_enabled(ColorWhen::Auto, false, false));
    assert!(color_enabled(ColorWhen::Auto, false, true));
}

#[test]
fn show_hidden_and_dot_entries() {
    assert!(!Cli::default().show_hidden());
    let all = Cli { all: true, ..Cli::default() };
    assert!(all.show_hidden() && all.include_dot_entries());
    let almost = Cli { almost_all: true, ..Cli::default() };
    assert!(almost.show_hidden() && !almost.include_dot_entries());
}

#[test]
fn paths_join_and_normalize() {
    assert_eq!(join_paths("/a", "b"), "/a/b");
    assert_eq!(join_paths("/a/", "b"), "/a/b");
    assert_eq!(join_paths("/a", "/b"), "/b");
    assert_eq!(join_paths("", "b"), "b");
    assert_eq!(normalize_path("/a//b/./c/"), "/a/b/c");
    assert_eq!(normalize_path("./a/../b"), "./a/../b");
    assert_eq!(normalize_path("a/."), "a");
}
