use colorls::cli::Cli;
use colorls::entry::FileEntry;
use colorls::git::GitRepoInfo;
use colorls::render::long::{owner_group, owner_names, permission_string};
use colorls::render::tree::{tree_descends, tree_header, tree_level, tree_max_depth};
use colorls::render::{grid, long, RenderCtx};
use colorls::theme::{Theme, ThemeOverrides, ThemeSources};

fn theme() -> Theme {
    let sources = ThemeSources {
        dark_colors: "dir: blue\n".to_string(),
        light_colors: "dir: blue\n".to_string(),
        icons: "rs: R\n".to_string(),
        filenames: "readme.md: M\n".to_string(),
        folders: "src: S\n".to_string(),
        aliases: "rs: source_code\n".to_string(),
        extension_colors: "zip: red\n".to_string(),
    };
    let overrides = ThemeOverrides {
        dark_colors: None,
        light_colors: None,
        icons: None,
        filenames: None,
        folders: None,
        aliases: None,
        extension_colors: None,
    };
    Theme::load(&sources, &overrides, false).unwrap()
}

fn file(name: &str, size: u64) -> FileEntry {
    FileEntry {
        path: format!("/d/{}", name),
        name: name.to_string(),
        is_dir: false,
        is_symlink: false,
        symlink_target: None,
        is_broken_symlink: false,
        size,
        modified: None,
        readonly: false,
        mode: 0o644,
        uid: 0,
        gid: 0,
    }
}

fn dir(name: &str) -> FileEntry {
    FileEntry { is_dir: true, mode: 0o755, ..file(name, 4096) }
}

fn ctx<'a>(cli: &'a Cli, theme: &'a Theme, icons: bool, git: Option<&'a GitRepoInfo>) -> RenderCtx<'a> {
    RenderCtx { cli, theme, color_enabled: false, icons_enabled: icons, git }
}

#[test]
fn grid_puts_everything_on_one_line_when_it_fits() {
    let cli = Cli::default();
    let theme = theme();
    let entries = vec![file("a", 1), file("bb", 1), file("ccc", 1)];
    assert_eq!(grid::render(&entries, &ctx(&cli, &theme, false, None), 80), vec!["a  bb  ccc"]);
}

#[test]
fn grid_falls_back_to_one_per_line() {
    let cli = Cli::default();
    let theme = theme();
    let entries = vec![file("a", 1), file("bb", 1), file("ccc", 1)];
    assert_eq!(grid::render(&entries, &ctx(&cli, &theme, false, None), 4), vec!["a", "bb", "ccc"]);
    let oneline = Cli { oneline: true, ..Cli::default() };
    assert_eq!(grid::render(&entries, &ctx(&oneline, &theme, false, None), 80), vec!["a", "bb", "ccc"]);
    assert!(grid::render(&Vec::new(), &ctx(&cli, &theme, false, None), 80).is_empty());
}

#[test]
fn grid_fills_columns_top_to_bottom() {
    let cli = Cli::default();
    let theme = theme();
    let entries = vec![file("aaaa", 1), file("b", 1), file("cc", 1), file("d", 1), file("eeeee", 1)];
    let lines = grid::render(&entries, &ctx(&cli, &theme, false, None), 12);
    assert_eq!(lines, vec!["aaaa  d", "b     eeeee", "cc"]);
}

#[test]
fn grid_cells_carry_icons_and_directory_slash() {
    let cli = Cli::default();
    let theme = theme();
    let entries = vec![dir("src"), file("main.rs", 1), file("README.md", 1), file("x.bin", 1)];
    let lines = grid::render(&entries, &ctx(&cli, &theme, true, None), 200);
    assert_eq!(lines, vec!["S src/  R main.rs  M README.md  \u{f15b} x.bin"]);
}

#[test]
fn grid_git_column() {
    let cli = Cli { git_status: true, ..Cli::default() };
    let theme = theme();
    let info = GitRepoInfo::from_git_output("/d", None, Some(" M a\n"));
    let entries = vec![file("a", 1), file("b", 1)];
    let lines = grid::render(&entries, &ctx(&cli, &theme, false, Some(&info)), 80);
    assert_eq!(lines, vec!["!a    b"]);
}

#[test]
fn permissions_column() {
    let cli = Cli::default();
    let theme = theme();
    let c = ctx(&cli, &theme, false, None);
    assert_eq!(permission_string(&file("f", 1), &c), "-rw-r--r--");
    assert_eq!(permission_string(&dir("d"), &c), "drwxr-xr-x");
    let link = FileEntry { is_symlink: true, mode: 0o777, ..file("l", 1) };
    assert_eq!(permission_string(&link, &c), "lrwxrwxrwx");
}

#[test]
fn long_listing_aligns_columns() {
    let cli = Cli::default();
    let theme = theme();
    let entries = vec![file("f.txt", 1536), dir("d")];
    let owners = vec![("root".to_string(), "wheel".to_string()), ("me".to_string(), "g".to_string())];
    let dates = vec![Some("01 Jan 00:00".to_string()), None];
    let lines = long::render(&entries, &ctx(&cli, &theme, false, None), &owners, &dates);
    assert_eq!(
        lines,
        vec![
            "-rw-r--r--  root  wheel  1.5K  01 Jan 00:00  f.txt",
            "drwxr-xr-x    me      g     -  -  d/",
        ]
    );
}

#[test]
fn long_listing_shows_link_targets_and_git_column() {
    let cli = Cli { git_status: true, ..Cli::default() };
    let theme = theme();
    let link = FileEntry {
        is_symlink: true,
        symlink_target: Some("target.txt".to_string()),
        mode: 0o777,
        ..file("ln", 12)
    };
    let owners = vec![("u".to_string(), "g".to_string())];
    let dates = vec![Some("d".to_string())];
    let without_git = long::render(&vec![link.clone()], &ctx(&cli, &theme, false, None), &owners, &dates);
    assert_eq!(without_git, vec!["lrwxrwxrwx  u  g  12B  d    ln -> target.txt"]);
    let info = GitRepoInfo::from_git_output("/d", None, Some("?? ln\n"));
    let with_git = long::render(&vec![link], &ctx(&cli, &theme, false, Some(&info)), &owners, &dates);
    assert_eq!(with_git, vec!["lrwxrwxrwx  u  g  12B  d  ? ln -> target.txt"]);
}

#[test]
fn owner_columns_fall_back_to_ids() {
    assert_eq!(owner_names(1000, 50, None, None), ("1000".to_string(), "50".to_string()));
    assert_eq!(
        owner_names(0, 0, Some("root".to_string()), Some("root".to_string())),
        ("root".to_string(), "root".to_string())
    );
    let (user, group) = owner_group(&FileEntry { uid: 4_000_000_000, gid: 4_000_000_001, ..file("x", 1) });
    assert_eq!(user, "4000000000");
    assert_eq!(group, "4000000001");
    let (root_user, _) = owner_group(&file("x", 1));
    assert!(root_user == "root" || root_user == "0");
}

#[test]
fn tree_level_draws_branches() {
    let cli = Cli::default();
    let theme = theme();
    let entries = vec![file("b", 1), dir("a"), file(".hidden", 1)];
    let level = tree_level(entries, "", &ctx(&cli, &theme, false, None));
    assert_eq!(level.len(), 2);
    assert_eq!(level[0].line, "\u{251c}\u{2500}\u{2500} a/");
    assert_eq!(level[0].child_prefix, Some("\u{2502}   ".to_string()));
    assert_eq!(level[0].entry.name, "a");
    assert_eq!(level[1].line, "\u{2514}\u{2500}\u{2500} b");
    assert_eq!(level[1].child_prefix, None);
}

#[test]
fn tree_last_directory_gets_blank_indent() {
    let cli = Cli { all: true, ..Cli::default() };
    let theme = theme();
    let link = FileEntry { is_dir: true, is_symlink: true, ..dir("l") };
    let entries = vec![dir("z"), link, file(".h", 1)];
    let level = tree_level(entries, "\u{2502}   ", &ctx(&cli, &theme, false, None));
    assert_eq!(level.len(), 3);
    assert_eq!(level[0].line, "\u{2502}   \u{251c}\u{2500}\u{2500} .h");
    assert_eq!(level[1].child_prefix, None);
    assert_eq!(level[2].line, "\u{2502}   \u{2514}\u{2500}\u{2500} z/");
    assert_eq!(level[2].child_prefix, Some("\u{2502}       ".to_string()));
}

#[test]
fn tree_depth_and_header() {
    let cli = Cli::default();
    assert_eq!(tree_max_depth(&cli), 3);
    let deep = Cli { tree: Some(5), ..Cli::default() };
    assert_eq!(tree_max_depth(&deep), 5);
    assert!(tree_descends(3, 3));
    assert!(!tree_descends(4, 3));
    let theme = theme();
    let c = ctx(&cli, &theme, false, None);
    assert_eq!(tree_header("/home/user/project/", &c), "project");
    assert_eq!(tree_header(".", &c), ".");
    assert_eq!(tree_header("/", &c), "/");
}

#[test]
fn labels_and_markers_take_their_colors() {
    colored::control::set_override(true);
    let cli = Cli { git_status: true, ..Cli::default() };
    let sources = ThemeSources {
        dark_colors: "recognized_file: blue\ngit_status_modified: yellow\n".to_string(),
        light_colors: "{}".to_string(),
        icons: "{}".to_string(),
        filenames: "{}".to_string(),
        folders: "{}".to_string(),
        aliases: "{}".to_string(),
        extension_colors: "{}".to_string(),
    };
    let overrides = ThemeOverrides {
        dark_colors: None,
        light_colors: None,
        icons: None,
        filenames: None,
        folders: None,
        aliases: None,
        extension_colors: Some("zip: bright_red\n".to_string()),
    };
    let theme = Theme::load(&sources, &overrides, false).unwrap();
    let info = GitRepoInfo::from_git_output("/d", None, Some(" M a.zip\n"));
    let c = RenderCtx { cli: &cli, theme: &theme, color_enabled: true, icons_enabled: false, git: Some(&info) };
    let lines = grid::render(&vec![file("a.zip", 1), file("b.txt", 1)], &c, 200);
    assert_eq!(
        lines,
        vec!["\u{1b}[33m!\u{1b}[0m\u{1b}[91ma.zip\u{1b}[0m   \u{1b}[37m \u{1b}[0m\u{1b}[34mb.txt\u{1b}[0m"]
    );
}
