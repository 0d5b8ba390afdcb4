use colorls::cli::Cli;
use colorls::entry::{entry_name, FileEntry};
use colorls::listing::{branch_line, list_dir_flat, report_line, retain_shown, subdirectories, total_file_size};
use colorls::theme::{Theme, ThemeOverrides, ThemeSources};

fn theme() -> Theme {
    let text = "report: white\n".to_string();
    let sources = ThemeSources {
        dark_colors: text.clone(),
        light_colors: text,
        icons: "{}".to_string(),
        filenames: "{}".to_string(),
        folders: "{}".to_string(),
        aliases: "{}".to_string(),
        extension_colors: "{}".to_string(),
    };
    let overrides = ThemeOverrides {
        dark_colors: None,
        light_colors: None,
        icons: None,
        filenames: None,
        folders: None,
        aliases: None,
        extension_colors: None,
    };
    Theme::load(&sources, &overrides, false).unwrap()
}

fn entry(path: &str, is_dir: bool, size: u64) -> FileEntry {
    FileEntry {
        path: path.to_string(),
        name: entry_name(path),
        is_dir,
        is_symlink: false,
        symlink_target: None,
        is_broken_symlink: false,
        size,
        modified: None,
        readonly: false,
        mode: 0o644,
        uid: 0,
        gid: 0,
    }
}

fn names(v: &[FileEntry]) -> Vec<String> {
    v.iter().map(|e| e.name.clone()).collect()
}

fn sample() -> Vec<FileEntry> {
    vec![entry("d/zeta", false, 1), entry("d/.env", false, 2), entry("d/Alpha", true, 0), entry("d/beta", false, 3)]
}

fn dots() -> Vec<FileEntry> {
    let mut here = entry("d", true, 0);
    here.name = ".".to_string();
    let mut up = entry("/", true, 0);
    up.name = "..".to_string();
    vec![here, up]
}

#[test]
fn names_come_from_the_last_component() {
    assert_eq!(entry_name("d/zeta"), "zeta");
    assert_eq!(entry_name("/a/b/"), "b");
    assert_eq!(entry_name(".."), "..");
    assert_eq!(entry_name("/"), "/");
}

#[test]
fn hidden_entries_need_all() {
    assert_eq!(names(&retain_shown(sample(), &Cli::default())), vec!["zeta", "Alpha", "beta"]);
    let almost = Cli { almost_all: true, ..Cli::default() };
    assert_eq!(names(&retain_shown(sample(), &almost)), vec!["zeta", ".env", "Alpha", "beta"]);
}

#[test]
fn flat_listing_sorts_and_heads_with_dots_for_all() {
    let plain = list_dir_flat(sample(), Some(dots()), &Cli::default());
    assert_eq!(names(&plain), vec!["Alpha", "beta", "zeta"]);
    let all = Cli { all: true, ..Cli::default() };
    let with_dots = list_dir_flat(sample(), Some(dots()), &all);
    assert_eq!(names(&with_dots), vec![".", "..", ".env", "Alpha", "beta", "zeta"]);
    let unreadable_dots = list_dir_flat(sample(), None, &all);
    assert_eq!(names(&unreadable_dots), vec![".env", "Alpha", "beta", "zeta"]);
    let almost = Cli { almost_all: true, all: true, ..Cli::default() };
    assert_eq!(names(&list_dir_flat(sample(), Some(dots()), &almost)), vec![".env", "Alpha", "beta", "zeta"]);
    let reversed = Cli { all: true, reverse: true, ..Cli::default() };
    assert_eq!(names(&list_dir_flat(sample(), Some(dots()), &reversed)), vec![".", "..", "zeta", "beta", "Alpha", ".env"]);
}

#[test]
fn report_counts_directories_files_and_size() {
    let theme = theme();
    let entries = vec![entry("a", true, 4096), entry("b", false, 1024), entry("c", false, 512)];
    assert_eq!(total_file_size(&entries), Some(1536));
    assert_eq!(report_line(&entries, &theme, false), "\n1 directories, 2 files, 1.5K total");
    assert_eq!(report_line(&Vec::new(), &theme, false), "\n0 directories, 0 files, 0B total");
}

#[test]
fn total_size_overflow_is_detected() {
    let entries = vec![entry("a", false, u64::MAX), entry("b", false, 1), entry("c", true, u64::MAX)];
    assert_eq!(total_file_size(&entries), None);
    let fits = vec![entry("a", false, u64::MAX), entry("c", true, u64::MAX)];
    assert_eq!(total_file_size(&fits), Some(u64::MAX));
}

#[test]
fn recursion_visits_real_subdirectories_in_order() {
    let mut link = entry("p/link", true, 0);
    link.is_symlink = true;
    let entries = vec![
        entry("p/zz", true, 0),
        entry("p/file", false, 0),
        link,
        entry("p/Ab", true, 0),
        entry("p/aa", true, 0),
    ];
    let mut listed = dots();
    listed.extend(entries);
    assert_eq!(subdirectories(&listed), vec!["p/Ab", "p/aa", "p/zz"]);
}

#[test]
fn branch_line_with_and_without_icon() {
    let theme = theme();
    assert_eq!(branch_line("main", true, &theme, false), "\u{e0a0} main");
    assert_eq!(branch_line("main", false, &theme, false), "main");
}
