use colorls::colors::{paint, paint_color};
use colorls::theme::{color_from_name, Color, Theme, ThemeError, ThemeFile, ThemeOverrides, ThemeSources};

fn sources() -> ThemeSources {
    ThemeSources {
        dark_colors: "dir: bright_cyan\nreport: white\nsource_code: green\n".to_string(),
        light_colors: "dir: blue\nreport: black\n".to_string(),
        icons: "rs: R\ntxt: T\n".to_string(),
        filenames: "readme.md: M\n".to_string(),
        folders: ".git: G\n".to_string(),
        aliases: "rs: source_code\n".to_string(),
        extension_colors: "zip: red\ngz: yellow\n".to_string(),
    }
}

fn no_overrides() -> ThemeOverrides {
    ThemeOverrides {
        dark_colors: None,
        light_colors: None,
        icons: None,
        filenames: None,
        folders: None,
        aliases: None,
        extension_colors: None,
    }
}

fn lookup(table: &[(String, String)], key: &str) -> Option<String> {
    table.iter().find(|(k, _)| k == key).map(|(_, v)| v.clone())
}

#[test]
fn color_names_and_aliases() {
    assert_eq!(color_from_name("red"), Color::Red);
    assert_eq!(color_from_name("  Bright_Cyan \n"), Color::BrightCyan);
    assert_eq!(color_from_name("brightmagenta"), Color::BrightMagenta);
    assert_eq!(color_from_name("gray"), Color::BrightBlack);
    assert_eq!(color_from_name("GREY"), Color::BrightBlack);
    assert_eq!(color_from_name("no such color"), Color::White);
}

#[test]
fn hex_colors_with_or_without_hash() {
    let cyan = Color::TrueColor { r: 0, g: 255, b: 255 };
    assert_eq!(color_from_name("#00FFFF"), cyan);
    assert_eq!(color_from_name("00ffff"), cyan);
    assert_eq!(color_from_name("#0ff"), cyan);
    assert_eq!(color_from_name("#666"), Color::TrueColor { r: 0x66, g: 0x66, b: 0x66 });
    assert_eq!(color_from_name("FF8800"), Color::TrueColor { r: 255, g: 136, b: 0 });
    assert_eq!(color_from_name("#12345"), Color::White);
    assert_eq!(color_from_name("#GGGGGG"), Color::White);
}

#[test]
fn defaults_load_for_each_scheme() {
    let dark = Theme::load(&sources(), &no_overrides(), false).unwrap();
    assert_eq!(dark.color_for("dir"), Color::BrightCyan);
    assert_eq!(dark.color_for("unknown_category"), Color::White);
    let light = Theme::load(&sources(), &no_overrides(), true).unwrap();
    assert_eq!(light.color_for("dir"), Color::Blue);
    assert_eq!(light.color_for("source_code"), Color::White);
    assert_eq!(lookup(&dark.icons_by_ext, "rs"), Some("R".to_string()));
    assert_eq!(lookup(&dark.aliases, "rs"), Some("source_code".to_string()));
}

#[test]
fn user_files_override_only_their_keys() {
    let mut ovr = no_overrides();
    ovr.dark_colors = Some("DIR: \"#FF0000\"\nexecutable_file: red\n".to_string());
    ovr.icons = Some("rs: X\n".to_string());
    ovr.aliases = Some("   \n".to_string());
    let theme = Theme::load(&sources(), &ovr, false).unwrap();
    assert_eq!(theme.color_for("dir"), Color::TrueColor { r: 255, g: 0, b: 0 });
    assert_eq!(theme.color_for("executable_file"), Color::Red);
    assert_eq!(theme.color_for("report"), Color::White);
    assert_eq!(theme.color_for("source_code"), Color::Green);
    assert_eq!(lookup(&theme.icons_by_ext, "rs"), Some("X".to_string()));
    assert_eq!(lookup(&theme.icons_by_ext, "txt"), Some("T".to_string()));
    assert_eq!(lookup(&theme.aliases, "rs"), Some("source_code".to_string()));
}

#[test]
fn the_other_schemes_user_file_is_ignored() {
    let mut ovr = no_overrides();
    ovr.light_colors = Some("dir: red\n".to_string());
    let theme = Theme::load(&sources(), &ovr, false).unwrap();
    assert_eq!(theme.color_for("dir"), Color::BrightCyan);
}

#[test]
fn malformed_files_are_reported() {
    let mut ovr = no_overrides();
    ovr.folders = Some("- a\n- b\n".to_string());
    assert_eq!(Theme::load(&sources(), &ovr, false).err(), Some(ThemeError::UserFile(ThemeFile::Folders)));
    let mut ovr = no_overrides();
    ovr.light_colors = Some("[1, 2".to_string());
    ovr.icons = Some("- x\n".to_string());
    assert_eq!(Theme::load(&sources(), &ovr, true).err(), Some(ThemeError::UserFile(ThemeFile::LightColors)));
    let mut broken = sources();
    broken.aliases = "- not a map\n".to_string();
    assert_eq!(Theme::load(&broken, &no_overrides(), false).err(), Some(ThemeError::EmbeddedAsset));
}

#[test]
fn theme_file_names() {
    assert_eq!(ThemeFile::DarkColors.file_name(), "dark_colors.yaml");
    assert_eq!(ThemeFile::Aliases.file_name(), "aliases.yaml");
}

#[test]
fn paint_leaves_text_alone_without_colors() {
    let theme = Theme::load(&sources(), &no_overrides(), false).unwrap();
    assert_eq!(paint("name", "dir", &theme, false), "name");
}

#[test]
fn paint_wraps_text_in_its_color() {
    colored::control::set_override(true);
    let theme = Theme::load(&sources(), &no_overrides(), false).unwrap();
    assert_eq!(paint("name", "dir", &theme, true), "\u{1b}[96mname\u{1b}[0m");
    assert_eq!(paint("name", "source_code", &theme, true), "\u{1b}[32mname\u{1b}[0m");
    assert_eq!(paint("name", "no_such_category", &theme, true), "\u{1b}[37mname\u{1b}[0m");
    let mut ovr = no_overrides();
    ovr.dark_colors = Some("dir: \"#102030\"\n".to_string());
    let hex = Theme::load(&sources(), &ovr, false).unwrap();
    assert_eq!(paint("name", "dir", &hex, true), "\u{1b}[38;2;16;32;48mname\u{1b}[0m");
    assert_eq!(paint_color("x", Color::TrueColor { r: 0, g: 255, b: 7 }, true), "\u{1b}[38;2;0;255;7mx\u{1b}[0m");
    assert_eq!(paint_color("x", Color::BrightBlack, true), "\u{1b}[90mx\u{1b}[0m");
}

#[test]
fn hex_colors_are_exact_even_with_colors_switched_off_in_colored() {
    colored::control::set_override(false);
    assert_eq!(paint_color("x", Color::TrueColor { r: 1, g: 2, b: 3 }, true), "\u{1b}[38;2;1;2;3mx\u{1b}[0m");
    assert_eq!(paint_color("x", Color::Red, true), "x");
    assert_eq!(paint_color("x", Color::Red, false), "x");
}

#[test]
fn extension_colors_merge_like_the_other_files() {
    let mut ovr = no_overrides();
    ovr.extension_colors = Some("ZIP: \"#FF5500\"\nrar: 00AAFF\n".to_string());
    let theme = Theme::load(&sources(), &ovr, false).unwrap();
    let find = |k: &str| theme.extension_colors.iter().find(|(key, _)| key == k).map(|(_, c)| *c);
    assert_eq!(find("zip"), Some(Color::TrueColor { r: 255, g: 0x55, b: 0 }));
    assert_eq!(find("rar"), Some(Color::TrueColor { r: 0, g: 0xAA, b: 255 }));
    assert_eq!(find("gz"), Some(Color::Yellow));
    assert_eq!(find("tar"), None);
}

#[test]
fn empty_values_are_applied_and_reported() {
    let mut ovr = no_overrides();
    ovr.extension_colors = Some("zip: #FF0000\njar: bright_green\n".to_string());
    ovr.dark_colors = Some("dir:\nreport: red\nsource_code: ~\n".to_string());
    let theme = Theme::load(&sources(), &ovr, false).unwrap();
    assert_eq!(
        theme.empty_values,
        vec![(ThemeFile::DarkColors, "dir".to_string()), (ThemeFile::ExtensionColors, "zip".to_string())]
    );
    assert_eq!(theme.color_for("dir"), Color::White);
    assert_eq!(theme.color_for("report"), Color::Red);
    assert_eq!(theme.color_for("source_code"), Color::White);
    let find = |k: &str| theme.extension_colors.iter().find(|(key, _)| key == k).map(|(_, c)| *c);
    assert_eq!(find("zip"), Some(Color::White));
    assert_eq!(find("jar"), Some(Color::BrightGreen));
    assert!(Theme::load(&sources(), &no_overrides(), false).unwrap().empty_values.is_empty());
}
