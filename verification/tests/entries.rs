use colorls::entry::FileEntry;
use colorls::icons::{category_for, entry_color, icon_for, resolved_category};
use colorls::theme::{Color, Theme, ThemeOverrides, ThemeSources};

fn theme() -> Theme {
    let sources = ThemeSources {
        dark_colors: "dir: blue\n".to_string(),
        light_colors: "dir: blue\n".to_string(),
        icons: "rs: R\nmd: D\n".to_string(),
        filenames: "readme.md: M\n".to_string(),
        folders: ".git: G\n".to_string(),
        aliases: "rs: source_code\n".to_string(),
        extension_colors: "zip: red\n".to_string(),
    };
    let overrides = ThemeOverrides {
        dark_colors: None,
        light_colors: None,
        icons: None,
        filenames: None,
        folders: None,
        aliases: None,
        extension_colors: None,
    };
    Theme::load(&sources, &overrides, false).unwrap()
}

fn file(path: &str, name: &str) -> FileEntry {
    FileEntry {
        path: path.to_string(),
        name: name.to_string(),
        is_dir: false,
        is_symlink: false,
        symlink_target: None,
        is_broken_symlink: false,
        size: 0,
        modified: None,
        readonly: false,
        mode: 0o644,
        uid: 0,
        gid: 0,
    }
}

#[test]
fn extension_is_lowercased() {
    let e = file("/tmp/x/Example.RS", "Example.RS");
    assert_eq!(e.extension().as_deref(), Some("rs"));
    assert!(!e.is_dir);
    assert!(!e.is_hidden());
}

#[test]
fn dotfiles_are_hidden_and_have_no_extension() {
    let e = file("/tmp/x/.env", ".env");
    assert!(e.is_hidden());
    assert_eq!(e.extension(), None);
    assert_eq!(file("/tmp/x/a.tar.GZ", "a.tar.GZ").extension().as_deref(), Some("gz"));
    assert_eq!(file("/tmp/x/noext", "noext").extension(), None);
    assert_eq!(file("/tmp/x/trailing.", "trailing.").extension().as_deref(), Some(""));
}

#[test]
fn executable_bits() {
    assert!(!file("a", "a").is_executable());
    assert!(FileEntry { mode: 0o744, ..file("a", "a") }.is_executable());
    assert!(FileEntry { mode: 0o001, ..file("a", "a") }.is_executable());
}

#[test]
fn icons_prefer_file_name_over_extension() {
    let theme = theme();
    assert_eq!(icon_for(&file("/x/README.md", "README.md"), &theme), "M");
    assert_eq!(icon_for(&file("/x/notes.md", "notes.md"), &theme), "D");
    assert_eq!(icon_for(&file("/x/main.RS", "main.RS"), &theme), "R");
    assert_eq!(icon_for(&file("/x/blob", "blob"), &theme), "\u{f15b}");
    let git = FileEntry { is_dir: true, ..file("/x/.GIT", ".GIT") };
    assert_eq!(icon_for(&git, &theme), "G");
    let other = FileEntry { is_dir: true, ..file("/x/src", "src") };
    assert_eq!(icon_for(&other, &theme), "\u{f07b}");
    let broken = FileEntry { is_symlink: true, is_broken_symlink: true, ..file("/x/a.rs", "a.rs") };
    assert_eq!(icon_for(&broken, &theme), "\u{f481}");
    let link = FileEntry { is_symlink: true, ..file("/x/blob", "blob") };
    assert_eq!(icon_for(&link, &theme), "\u{f481}");
}

#[test]
fn categories() {
    let theme = theme();
    assert_eq!(category_for(&file("a", "a")), "recognized_file");
    assert_eq!(category_for(&FileEntry { mode: 0o755, ..file("a", "a") }), "executable_file");
    assert_eq!(category_for(&FileEntry { is_dir: true, ..file("a", "a") }), "dir");
    assert_eq!(category_for(&FileEntry { is_symlink: true, ..file("a", "a") }), "symlink");
    let dead = FileEntry { is_symlink: true, is_broken_symlink: true, ..file("a", "a") };
    assert_eq!(category_for(&dead), "dead_link");
    assert_eq!(resolved_category(&file("/x/m.rs", "m.rs"), &theme), "source_code");
    assert_eq!(resolved_category(&file("/x/m.zz", "m.zz"), &theme), "recognized_file");
    assert_eq!(resolved_category(&FileEntry { mode: 0o755, ..file("/x/run", "run") }, &theme), "executable_file");
    assert_eq!(resolved_category(&dead, &theme), "dead_link");
}

#[test]
fn extension_colors_apply_to_plain_files_only() {
    let theme = theme();
    assert_eq!(entry_color(&file("/x/a.ZIP", "a.ZIP"), &theme), Some(Color::Red));
    assert_eq!(entry_color(&file("/x/a.rs", "a.rs"), &theme), None);
    assert_eq!(entry_color(&FileEntry { is_dir: true, ..file("/x/d.zip", "d.zip") }, &theme), None);
    assert_eq!(entry_color(&FileEntry { is_symlink: true, ..file("/x/l.zip", "l.zip") }, &theme), None);
}
