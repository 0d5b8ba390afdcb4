//! The theme: colors per category, icons per extension, file name and
//! folder, and extension aliases; the embedded defaults with the user's
//! overrides from the config directory layered on top.

use vstd::prelude::*;
use crate::table::{
    entry_views, first_match, lemma_first_match_push, table_get, table_map, text_table_insert,
    text_table_map,
};
use crate::text::{chars_of, opt_view, spec_to_lowercase, spec_trim, string_texts, to_lowercase, trim};
use std::collections::BTreeMap;

verus! {

broadcast use vstd::string::group_string_axioms;

/// A terminal color: one of the sixteen named ANSI colors or a 24-bit one.
#[derive(Debug, Clone, Copy, PartialEq, Eq, Structural)]
pub enum Color {
    Black,
    Red,
    Green,
    Yellow,
    Blue,
    Magenta,
    Cyan,
    White,
    BrightBlack,
    BrightRed,
    BrightGreen,
    BrightYellow,
    BrightBlue,
    BrightMagenta,
    BrightCyan,
    BrightWhite,
    TrueColor { r: u8, g: u8, b: u8 },
}

/// General behaviour defaults from `config.yaml`; every key is optional and
/// command-line flags take precedence.
#[derive(Debug, Clone)]
pub struct UserConfig {
    /// `"dark"` or `"light"`.
    pub theme: Option<String>,
    pub icons: Option<bool>,
    pub git_status: Option<bool>,
    pub group_directories_first: Option<bool>,
    pub sort_files_first: Option<bool>,
    pub report: Option<bool>,
    pub tree_depth: Option<usize>,
    pub long: Option<bool>,
    pub all: Option<bool>,
}

impl Default for UserConfig {
    /// No setting at all: every key is left to the command line and the
    /// built-in defaults.
    fn default() -> (res: UserConfig)
        ensures
            res.theme is None,
            res.icons is None,
            res.git_status is None,
            res.group_directories_first is None,
            res.sort_files_first is None,
            res.report is None,
            res.tree_depth is None,
            res.long is None,
            res.all is None,
    {
        UserConfig {
            theme: Option::None,
            icons: Option::None,
            git_status: Option::None,
            group_directories_first: Option::None,
            sort_files_first: Option::None,
            report: Option::None,
            tree_depth: Option::None,
            long: Option::None,
            all: Option::None,
        }
    }
}

// ---------------------------------------------------------------------
// Color names
// ---------------------------------------------------------------------

/// The value of a lowercase hexadecimal digit, -1 for any other character.
pub open spec fn hex_value(c: char) -> int {
    if '0' <= c && c <= '9' {
        c as int - '0' as int
    } else if 'a' <= c && c <= 'f' {
        c as int - 'a' as int + 10
    } else {
        -1
    }
}

/// All characters are lowercase hexadecimal digits.
pub open spec fn all_hex(h: Seq<char>) -> bool {
    forall|i: int| 0 <= i < h.len() ==> hex_value(#[trigger] h[i]) >= 0
}

/// A 24-bit color written in hexadecimal (lowercase), with or without a
/// leading `#`: six digits `rrggbb`, or three digits `rgb` with each
/// digit doubled.
pub open spec fn spec_hex_color(s: Seq<char>) -> Option<Color> {
    let h = if s.len() > 0 && s[0] == '#' { s.drop_first() } else { s };
    if h.len() == 6 && all_hex(h) {
        Option::Some(
            Color::TrueColor {
                r: (16 * hex_value(h[0]) + hex_value(h[1])) as u8,
                g: (16 * hex_value(h[2]) + hex_value(h[3])) as u8,
                b: (16 * hex_value(h[4]) + hex_value(h[5])) as u8,
            },
        )
    } else if h.len() == 3 && all_hex(h) {
        Option::Some(
            Color::TrueColor {
                r: (17 * hex_value(h[0])) as u8,
                g: (17 * hex_value(h[1])) as u8,
                b: (17 * hex_value(h[2])) as u8,
            },
        )
    } else {
        Option::None
    }
}

/// The color a color name stands for, after trimming and lowercasing it:
/// one of the named colors (with `bright_` or `bright` prefixes, and
/// `gray`/`grey` for bright black), else a hexadecimal color, else white.
pub open spec fn spec_color_from_name(name: Seq<char>) -> Color {
    let n = spec_to_lowercase(spec_trim(name));
    if n == "black"@ {
        Color::Black
    } else if n == "red"@ {
        Color::Red
    } else if n == "green"@ {
        Color::Green
    } else if n == "yellow"@ {
        Color::Yellow
    } else if n == "blue"@ {
        Color::Blue
    } else if n == "magenta"@ {
        Color::Magenta
    } else if n == "cyan"@ {
        Color::Cyan
    } else if n == "white"@ {
        Color::White
    } else if n == "bright_black"@ || n == "brightblack"@ || n == "gray"@ || n == "grey"@ {
        Color::BrightBlack
    } else if n == "bright_red"@ || n == "brightred"@ {
        Color::BrightRed
    } else if n == "bright_green"@ || n == "brightgreen"@ {
        Color::BrightGreen
    } else if n == "bright_yellow"@ || n == "brightyellow"@ {
        Color::BrightYellow
    } else if n == "bright_blue"@ || n == "brightblue"@ {
        Color::BrightBlue
    } else if n == "bright_magenta"@ || n == "brightmagenta"@ {
        Color::BrightMagenta
    } else if n == "bright_cyan"@ || n == "brightcyan"@ {
        Color::BrightCyan
    } else if n == "bright_white"@ || n == "brightwhite"@ {
        Color::BrightWhite
    } else {
        match spec_hex_color(n) {
            Option::Some(c) => c,
            Option::None => Color::White,
        }
    }
}

fn text_is(a: &String, b: &str) -> (res: bool)
    ensures
        res == (a@ == b@),
{
    *a == b.to_string()
}

fn hex_digit(c: char) -> (res: i16)
    ensures
        res as int == hex_value(c),
{
    if '0' <= c && c <= '9' {
        (c as u32 - '0' as u32) as i16
    } else if 'a' <= c && c <= 'f' {
        (c as u32 - 'a' as u32 + 10) as i16
    } else {
        -1
    }
}

fn hex_color(s: &String) -> (res: Option<Color>)
    ensures
        res == spec_hex_color(s@),
{
    let cs = chars_of(s.as_str());
    let start: usize = if cs.len() > 0 && cs[0] == '#' { 1 } else { 0 };
    let ghost h = if s@.len() > 0 && s@[0] == '#' { s@.drop_first() } else { s@ };
    assert(h =~= cs@.skip(start as int));
    let n = cs.len() - start;
    if n != 6 && n != 3 {
        return Option::None;
    }
    let mut i: usize = start;
    while i < cs.len()
        invariant
            start <= i <= cs.len(),
            h == cs@.skip(start as int),
            h == (if s@.len() > 0 && s@[0] == '#' { s@.drop_first() } else { s@ }),
            forall|j: int| 0 <= j < i - start ==> hex_value(#[trigger] h[j]) >= 0,
        decreases cs.len() - i,
    {
        if hex_digit(cs[i]) < 0 {
            assert(hex_value(h[i - start]) < 0);
            assert(!all_hex(h));
            return Option::None;
        }
        i = i + 1;
    }
    assert(all_hex(h));
    if n == 6 {
        let r = (16 * hex_digit(cs[start]) + hex_digit(cs[start + 1])) as u8;
        let g = (16 * hex_digit(cs[start + 2]) + hex_digit(cs[start + 3])) as u8;
        let b = (16 * hex_digit(cs[start + 4]) + hex_digit(cs[start + 5])) as u8;
        Option::Some(Color::TrueColor { r, g, b })
    } else {
        let r = (17 * hex_digit(cs[start])) as u8;
        let g = (17 * hex_digit(cs[start + 1])) as u8;
        let b = (17 * hex_digit(cs[start + 2])) as u8;
        Option::Some(Color::TrueColor { r, g, b })
    }
}

/// The color a color name stands for (see `spec_color_from_name`).
pub fn color_from_name(name: &str) -> (res: Color)
    ensures
        res == spec_color_from_name(name@),
{
    let n = to_lowercase(trim(name));
    if text_is(&n, "black") {
        Color::Black
    } else if text_is(&n, "red") {
        Color::Red
    } else if text_is(&n, "green") {
        Color::Green
    } else if text_is(&n, "yellow") {
        Color::Yellow
    } else if text_is(&n, "blue") {
        Color::Blue
    } else if text_is(&n, "magenta") {
        Color::Magenta
    } else if text_is(&n, "cyan") {
        Color::Cyan
    } else if text_is(&n, "white") {
        Color::White
    } else if text_is(&n, "bright_black") || text_is(&n, "brightblack") || text_is(&n, "gray")
        || text_is(&n, "grey") {
        Color::BrightBlack
    } else if text_is(&n, "bright_red") || text_is(&n, "brightred") {
        Color::BrightRed
    } else if text_is(&n, "bright_green") || text_is(&n, "brightgreen") {
        Color::BrightGreen
    } else if text_is(&n, "bright_yellow") || text_is(&n, "brightyellow") {
        Color::BrightYellow
    } else if text_is(&n, "bright_blue") || text_is(&n, "brightblue") {
        Color::BrightBlue
    } else if text_is(&n, "bright_magenta") || text_is(&n, "brightmagenta") {
        Color::BrightMagenta
    } else if text_is(&n, "bright_cyan") || text_is(&n, "brightcyan") {
        Color::BrightCyan
    } else if text_is(&n, "bright_white") || text_is(&n, "brightwhite") {
        Color::BrightWhite
    } else {
        match hex_color(&n) {
            Option::Some(c) => c,
            Option::None => Color::White,
        }
    }
}


// ---------------------------------------------------------------------
// YAML maps
// ---------------------------------------------------------------------

/// The key/value pairs of a YAML mapping of strings to strings as
/// `serde_yaml` reads it (an empty value, as in `key:` or `key: #...`
/// where an unquoted `#` starts a comment, reads as the empty string), or
/// `None` when the text is not one.
pub uninterp spec fn spec_yaml_map(text: Seq<char>) -> Option<Seq<(Seq<char>, Seq<char>)>>;

/// Key/value pairs taken as characters.
pub open spec fn pair_views(v: Seq<(String, String)>) -> Seq<(Seq<char>, Seq<char>)> {
    v.map_values(|e: (String, String)| (e.0@, e.1@))
}

/// Calls `serde_yaml::from_str` for a map of strings to strings; the pairs
/// are a function of the text alone.
#[verifier::external_body]
fn parse_yaml_map(text: &str) -> (res: Option<Vec<(String, String)>>)
    ensures
        match res {
            Option::Some(v) => spec_yaml_map(text@) == Option::Some(pair_views(v@)),
            Option::None => spec_yaml_map(text@) is None,
        },
{
    match serde_yaml::from_str::<BTreeMap<String, String>>(text) {
        Ok(m) => Option::Some(m.into_iter().collect()),
        Err(_) => Option::None,
    }
}

/// The keys whose value is empty, in order.
pub open spec fn empty_keys(ps: Seq<(Seq<char>, Seq<char>)>) -> Seq<Seq<char>>
    decreases ps.len(),
{
    if ps.len() == 0 {
        seq![]
    } else {
        let rest = empty_keys(ps.drop_last());
        if ps.last().1.len() == 0 {
            rest.push(ps.last().0)
        } else {
            rest
        }
    }
}

/// `m` with each pair inserted in turn (later pairs win), keys lowercased
/// when `lower` is set.
pub open spec fn insert_pairs(m: Map<Seq<char>, Seq<char>>, ps: Seq<(Seq<char>, Seq<char>)>, lower: bool) -> Map<
    Seq<char>,
    Seq<char>,
>
    decreases ps.len(),
{
    if ps.len() == 0 {
        m
    } else {
        insert_pairs(m, ps.drop_last(), lower).insert(
            if lower { spec_to_lowercase(ps.last().0) } else { ps.last().0 },
            ps.last().1,
        )
    }
}

fn insert_pairs_into(table: &mut Vec<(String, String)>, ps: &Vec<(String, String)>, lower: bool)
    ensures
        text_table_map(final(table)@) == insert_pairs(text_table_map(old(table)@), pair_views(ps@), lower),
{
    let ghost m0 = text_table_map(table@);
    let ghost pv = pair_views(ps@);
    let mut i: usize = 0;
    while i < ps.len()
        invariant
            i <= ps.len(),
            pv == pair_views(ps@),
            text_table_map(table@) == insert_pairs(m0, pv.take(i as int), lower),
        decreases ps.len() - i,
    {
        let key = if lower {
            to_lowercase(ps[i].0.as_str())
        } else {
            ps[i].0.clone()
        };
        let value = ps[i].1.clone();
        text_table_insert(table, key, value);
        assert(pv.take(i + 1).drop_last() =~= pv.take(i as int));
        i = i + 1;
    }
    assert(pv.take(pv.len() as int) =~= pv);
}

/// Colors from color names, key by key.
pub open spec fn color_map_of(m: Map<Seq<char>, Seq<char>>) -> Map<Seq<char>, Color> {
    Map::new(|k: Seq<char>| m.contains_key(k), |k: Seq<char>| spec_color_from_name(m[k]))
}

fn colors_from(raw: &Vec<(String, String)>) -> (res: Vec<(String, Color)>)
    ensures
        table_map(entry_views(res@)) == color_map_of(text_table_map(raw@)),
{
    let ghost a = raw@.map_values(|e: (String, String)| (e.0@, e.1@));
    let mut out: Vec<(String, Color)> = Vec::new();
    let mut i: usize = 0;
    while i < raw.len()
        invariant
            i <= raw.len(),
            a == raw@.map_values(|e: (String, String)| (e.0@, e.1@)),
            forall|k: Seq<char>| #[trigger]
                first_match(entry_views(out@), k) == match first_match(a.take(i as int), k) {
                    Option::Some(v) => Option::Some(spec_color_from_name(v)),
                    Option::None => Option::None,
                },
            out@.len() == i,
        decreases raw.len() - i,
    {
        let key = raw[i].0.clone();
        let c = color_from_name(raw[i].1.as_str());
        let ghost before = entry_views(out@);
        out.push((key, c));
        proof {
            assert(entry_views(out@) =~= before.push((a[i as int].0, c)));
            assert(a.take(i + 1) =~= a.take(i as int).push(a[i as int]));
            assert forall|k: Seq<char>| #[trigger]
                first_match(entry_views(out@), k) == match first_match(a.take(i + 1), k) {
                    Option::Some(v) => Option::Some(spec_color_from_name(v)),
                    Option::None => Option::None,
                } by {
                lemma_first_match_push(before, (a[i as int].0, c), k);
                lemma_first_match_push(a.take(i as int), a[i as int], k);
            }
        }
        i = i + 1;
    }
    assert(a.take(a.len() as int) =~= a);
    assert(table_map(entry_views(out@)) =~= color_map_of(text_table_map(raw@)));
    out
}

// ---------------------------------------------------------------------
// The theme
// ---------------------------------------------------------------------

/// The theme files a config directory may hold.
#[derive(Debug, Clone, Copy, PartialEq, Eq, Structural)]
pub enum ThemeFile {
    DarkColors,
    LightColors,
    Icons,
    Filenames,
    Folders,
    Aliases,
    ExtensionColors,
}

impl ThemeFile {
    /// The file's name in the config directory.
    pub fn file_name(self) -> (res: &'static str)
        ensures
            res@ == match self {
                ThemeFile::DarkColors => "dark_colors.yaml"@,
                ThemeFile::LightColors => "light_colors.yaml"@,
                ThemeFile::Icons => "icons.yaml"@,
                ThemeFile::Filenames => "filenames.yaml"@,
                ThemeFile::Folders => "folders.yaml"@,
                ThemeFile::Aliases => "aliases.yaml"@,
                ThemeFile::ExtensionColors => "extension_colors.yaml"@,
            },
    {
        match self {
            ThemeFile::DarkColors => "dark_colors.yaml",
            ThemeFile::LightColors => "light_colors.yaml",
            ThemeFile::Icons => "icons.yaml",
            ThemeFile::Filenames => "filenames.yaml",
            ThemeFile::Folders => "folders.yaml",
            ThemeFile::Aliases => "aliases.yaml",
            ThemeFile::ExtensionColors => "extension_colors.yaml",
        }
    }
}

/// Why a theme could not be built.
#[derive(Debug, Clone, Copy, PartialEq, Eq, Structural)]
pub enum ThemeError {
    /// An embedded default asset is not a YAML map of strings.
    EmbeddedAsset,
    /// A user file in the config directory is not a YAML map of strings.
    UserFile(ThemeFile),
}

/// The built-in defaults, as YAML text.
pub struct ThemeSources {
    pub dark_colors: String,
    pub light_colors: String,
    pub icons: String,
    pub filenames: String,
    pub folders: String,
    pub aliases: String,
    pub extension_colors: String,
}

/// The contents of the theme files found in the config directory (`None`
/// for a file that is not there, or when there is no config directory).
pub struct ThemeOverrides {
    pub dark_colors: Option<String>,
    pub light_colors: Option<String>,
    pub icons: Option<String>,
    pub filenames: Option<String>,
    pub folders: Option<String>,
    pub aliases: Option<String>,
    pub extension_colors: Option<String>,
}

/// The fully resolved theme: colors per category, icons per extension,
/// file name and folder name, categories per extension, and colors per
/// extension; with the keys of the user's files whose value was empty.
pub struct Theme {
    pub colors: Vec<(String, Color)>,
    pub icons_by_ext: Vec<(String, String)>,
    pub icons_by_filename: Vec<(String, String)>,
    pub icons_by_folder: Vec<(String, String)>,
    pub aliases: Vec<(String, String)>,
    pub extension_colors: Vec<(String, Color)>,
    /// Keys of the user's files whose value was empty, with their file, in
    /// the order the files are read.
    pub empty_values: Vec<(ThemeFile, String)>,
}

impl Theme {
    pub open spec fn color_map(&self) -> Map<Seq<char>, Color> {
        table_map(entry_views(self.colors@))
    }

    pub open spec fn ext_icons(&self) -> Map<Seq<char>, Seq<char>> {
        text_table_map(self.icons_by_ext@)
    }

    pub open spec fn filename_icons(&self) -> Map<Seq<char>, Seq<char>> {
        text_table_map(self.icons_by_filename@)
    }

    pub open spec fn folder_icons(&self) -> Map<Seq<char>, Seq<char>> {
        text_table_map(self.icons_by_folder@)
    }

    pub open spec fn alias_map(&self) -> Map<Seq<char>, Seq<char>> {
        text_table_map(self.aliases@)
    }

    /// The color of a category; white when the theme has none for it.
    pub open spec fn category_color(&self, category: Seq<char>) -> Color {
        if self.color_map().contains_key(category) {
            self.color_map()[category]
        } else {
            Color::White
        }
    }

    pub open spec fn ext_color_map(&self) -> Map<Seq<char>, Color> {
        table_map(entry_views(self.extension_colors@))
    }

    pub open spec fn empty_value_keys(&self) -> Seq<(ThemeFile, Seq<char>)> {
        self.empty_values@.map_values(|e: (ThemeFile, String)| (e.0, e.1@))
    }
}

/// What a user file contributes: `Some(None)` when it is missing or blank,
/// `Some(Some(pairs))` when it is a map, `None` when it cannot be read as one.
pub open spec fn user_pairs(text: Option<String>) -> Option<Option<Seq<(Seq<char>, Seq<char>)>>> {
    match text {
        Option::None => Option::Some(Option::None),
        Option::Some(t) => if spec_trim(t@).len() == 0 {
            Option::Some(Option::None)
        } else {
            match spec_yaml_map(t@) {
                Option::Some(ps) => Option::Some(Option::Some(ps)),
                Option::None => Option::None,
            }
        },
    }
}

/// A default map with the user's entries layered on top: every user key
/// (lowercased) replaces the default for that key only.
pub open spec fn merged_map(default_text: Seq<char>, user_text: Option<String>) -> Map<Seq<char>, Seq<char>> {
    let base = insert_pairs(Map::empty(), spec_yaml_map(default_text)->0, false);
    match user_pairs(user_text) {
        Option::Some(Option::Some(ps)) => insert_pairs(base, ps, true),
        _ => base,
    }
}

/// The keys of a user file whose value is empty, each with the file.
pub open spec fn user_empty_values(file: ThemeFile, text: Option<String>) -> Seq<(ThemeFile, Seq<char>)> {
    match user_pairs(text) {
        Option::Some(Option::Some(ps)) => empty_keys(ps).map_values(|k: Seq<char>| (file, k)),
        _ => seq![],
    }
}

/// The color file of the chosen scheme.
pub open spec fn color_file(light: bool) -> ThemeFile {
    if light { ThemeFile::LightColors } else { ThemeFile::DarkColors }
}

/// The color defaults for the chosen scheme.
pub open spec fn color_source(src: ThemeSources, light: bool) -> Seq<char> {
    if light { src.light_colors@ } else { src.dark_colors@ }
}

/// The user's color file for the chosen scheme.
pub open spec fn color_override(ovr: ThemeOverrides, light: bool) -> Option<String> {
    if light { ovr.light_colors } else { ovr.dark_colors }
}

/// The keys with an empty value in the user's files, in the order colors,
/// icons, file names, folders, aliases, extension colors.
pub open spec fn load_empty_values(ovr: ThemeOverrides, light: bool) -> Seq<(ThemeFile, Seq<char>)> {
    user_empty_values(color_file(light), color_override(ovr, light)) + user_empty_values(ThemeFile::Icons, ovr.icons)
        + user_empty_values(ThemeFile::Filenames, ovr.filenames) + user_empty_values(ThemeFile::Folders, ovr.folders)
        + user_empty_values(ThemeFile::Aliases, ovr.aliases) + user_empty_values(
        ThemeFile::ExtensionColors,
        ovr.extension_colors,
    )
}

/// Why loading fails, if it does: an unreadable default first, then the
/// user files in the order colors, icons, file names, folders, aliases,
/// extension colors.
pub open spec fn spec_load_error(src: ThemeSources, ovr: ThemeOverrides, light: bool) -> Option<ThemeError> {
    if spec_yaml_map(color_source(src, light)) is None || spec_yaml_map(src.icons@) is None
        || spec_yaml_map(src.filenames@) is None || spec_yaml_map(src.folders@) is None
        || spec_yaml_map(src.aliases@) is None || spec_yaml_map(src.extension_colors@) is None {
        Option::Some(ThemeError::EmbeddedAsset)
    } else if user_pairs(color_override(ovr, light)) is None {
        Option::Some(ThemeError::UserFile(color_file(light)))
    } else if user_pairs(ovr.icons) is None {
        Option::Some(ThemeError::UserFile(ThemeFile::Icons))
    } else if user_pairs(ovr.filenames) is None {
        Option::Some(ThemeError::UserFile(ThemeFile::Filenames))
    } else if user_pairs(ovr.folders) is None {
        Option::Some(ThemeError::UserFile(ThemeFile::Folders))
    } else if user_pairs(ovr.aliases) is None {
        Option::Some(ThemeError::UserFile(ThemeFile::Aliases))
    } else if user_pairs(ovr.extension_colors) is None {
        Option::Some(ThemeError::UserFile(ThemeFile::ExtensionColors))
    } else {
        Option::None
    }
}

/// Reads a user file: `Ok(None)` when missing or blank.
fn read_user_pairs(text: &Option<String>) -> (res: Result<Option<Vec<(String, String)>>, ()>)
    ensures
        match res {
            Ok(Option::Some(v)) => user_pairs(*text) == Option::Some(Option::Some(pair_views(v@))),
            Ok(Option::None) => user_pairs(*text) == Option::Some(Option::<Seq<(Seq<char>, Seq<char>)>>::None),
            Err(_) => user_pairs(*text) is None,
        },
{
    match text {
        Option::None => Ok(Option::None),
        Option::Some(t) => {
            if trim(t.as_str()).is_empty() {
                Ok(Option::None)
            } else {
                match parse_yaml_map(t.as_str()) {
                    Option::Some(v) => Ok(Option::Some(v)),
                    Option::None => Err(()),
                }
            }
        },
    }
}

/// Appends the keys of a user file whose value is empty (with the file) to
/// `empty`.
fn note_empty_values(file: ThemeFile, entries: &Option<Vec<(String, String)>>, empty: &mut Vec<(ThemeFile, String)>)
    ensures
        final(empty)@.map_values(|e: (ThemeFile, String)| (e.0, e.1@)) == old(empty)@.map_values(
            |e: (ThemeFile, String)| (e.0, e.1@),
        ) + match entries {
            Option::Some(v) => empty_keys(pair_views(v@)).map_values(|k: Seq<char>| (file, k)),
            Option::None => seq![],
        },
{
    let ghost before = empty@.map_values(|e: (ThemeFile, String)| (e.0, e.1@));
    match entries {
        Option::None => {
            assert(empty@.map_values(|e: (ThemeFile, String)| (e.0, e.1@)) =~= before + seq![]);
        },
        Option::Some(v) => {
            let ghost pv = pair_views(v@);
            let mut i: usize = 0;
            assert(pv.take(0) =~= Seq::<(Seq<char>, Seq<char>)>::empty());
            assert(empty@.map_values(|e: (ThemeFile, String)| (e.0, e.1@)) =~= before + empty_keys(
                pv.take(0),
            ).map_values(|k: Seq<char>| (file, k)));
            while i < v.len()
                invariant
                    i <= v@.len(),
                    pv == pair_views(v@),
                    empty@.map_values(|e: (ThemeFile, String)| (e.0, e.1@)) == before + empty_keys(
                        pv.take(i as int),
                    ).map_values(|k: Seq<char>| (file, k)),
                decreases v.len() - i,
            {
                let ghost prev = empty@.map_values(|e: (ThemeFile, String)| (e.0, e.1@));
                assert(pv.take(i + 1).drop_last() =~= pv.take(i as int));
                assert(pv.take(i + 1).last() == pv[i as int]);
                if v[i].1.as_str().unicode_len() == 0 {
                    empty.push((file, v[i].0.clone()));
                    proof {
                        let ek = empty_keys(pv.take(i as int));
                        assert(empty_keys(pv.take(i + 1)) == ek.push(pv[i as int].0));
                        assert(empty@.map_values(|e: (ThemeFile, String)| (e.0, e.1@)) =~= prev.push(
                            (file, pv[i as int].0),
                        ));
                        assert(ek.push(pv[i as int].0).map_values(|k: Seq<char>| (file, k)) =~= ek.map_values(
                            |k: Seq<char>| (file, k),
                        ).push((file, pv[i as int].0)));
                    }
                }
                i = i + 1;
            }
            assert(pv.take(pv.len() as int) =~= pv);
        },
    }
}

fn build_map(defaults: &Vec<(String, String)>, user: &Option<Vec<(String, String)>>) -> (res: Vec<(String, String)>)
    ensures
        text_table_map(res@) == match user {
            Option::Some(u) => insert_pairs(insert_pairs(Map::empty(), pair_views(defaults@), false), pair_views(u@), true),
            Option::None => insert_pairs(Map::empty(), pair_views(defaults@), false),
        },
{
    let mut table: Vec<(String, String)> = Vec::new();
    assert(text_table_map(table@) =~= Map::<Seq<char>, Seq<char>>::empty());
    insert_pairs_into(&mut table, defaults, false);
    match user {
        Option::Some(u) => insert_pairs_into(&mut table, u, true),
        Option::None => {},
    }
    table
}

impl Theme {
    /// Build the theme: the embedded defaults (the color file of the chosen
    /// scheme), with the user's files from the config directory layered on
    /// top; keys with an empty value are reported. Fails when a
    /// default or a non-blank user file is not a YAML map.
    pub fn load(sources: &ThemeSources, overrides: &ThemeOverrides, light: bool) -> (res: Result<Theme, ThemeError>)
        ensures
            match res {
                Ok(t) => {
                    &&& spec_load_error(*sources, *overrides, light) is None
                    &&& t.color_map() == color_map_of(
                        merged_map(color_source(*sources, light), color_override(*overrides, light)),
                    )
                    &&& t.ext_icons() == merged_map(sources.icons@, overrides.icons)
                    &&& t.filename_icons() == merged_map(sources.filenames@, overrides.filenames)
                    &&& t.folder_icons() == merged_map(sources.folders@, overrides.folders)
                    &&& t.alias_map() == merged_map(sources.aliases@, overrides.aliases)
                    &&& t.ext_color_map() == color_map_of(
                        merged_map(sources.extension_colors@, overrides.extension_colors),
                    )
                    &&& t.empty_value_keys() == load_empty_values(*overrides, light)
                },
                Err(e) => spec_load_error(*sources, *overrides, light) == Option::Some(e),
            },
    {
        let color_text = if light { &sources.light_colors } else { &sources.dark_colors };
        let d_colors = parse_yaml_map(color_text.as_str());
        let d_icons = parse_yaml_map(sources.icons.as_str());
        let d_filenames = parse_yaml_map(sources.filenames.as_str());
        let d_folders = parse_yaml_map(sources.folders.as_str());
        let d_aliases = parse_yaml_map(sources.aliases.as_str());
        let d_ext_colors = parse_yaml_map(sources.extension_colors.as_str());
        let (d_colors, d_icons, d_filenames, d_folders, d_aliases, d_ext_colors) = match (
            d_colors,
            d_icons,
            d_filenames,
            d_folders,
            d_aliases,
            d_ext_colors,
        ) {
            (
                Option::Some(a),
                Option::Some(b),
                Option::Some(c),
                Option::Some(d),
                Option::Some(e),
                Option::Some(f),
            ) => (a, b, c, d, e, f),
            _ => {
                return Err(ThemeError::EmbeddedAsset);
            },
        };
        let color_file = if light { ThemeFile::LightColors } else { ThemeFile::DarkColors };
        let color_user = if light { &overrides.light_colors } else { &overrides.dark_colors };
        let u_colors = match read_user_pairs(color_user) {
            Ok(v) => v,
            Err(_) => {
                return Err(ThemeError::UserFile(color_file));
            },
        };
        let u_icons = match read_user_pairs(&overrides.icons) {
            Ok(v) => v,
            Err(_) => {
                return Err(ThemeError::UserFile(ThemeFile::Icons));
            },
        };
        let u_filenames = match read_user_pairs(&overrides.filenames) {
            Ok(v) => v,
            Err(_) => {
                return Err(ThemeError::UserFile(ThemeFile::Filenames));
            },
        };
        let u_folders = match read_user_pairs(&overrides.folders) {
            Ok(v) => v,
            Err(_) => {
                return Err(ThemeError::UserFile(ThemeFile::Folders));
            },
        };
        let u_aliases = match read_user_pairs(&overrides.aliases) {
            Ok(v) => v,
            Err(_) => {
                return Err(ThemeError::UserFile(ThemeFile::Aliases));
            },
        };
        let u_ext_colors = match read_user_pairs(&overrides.extension_colors) {
            Ok(v) => v,
            Err(_) => {
                return Err(ThemeError::UserFile(ThemeFile::ExtensionColors));
            },
        };
        let mut empty_values: Vec<(ThemeFile, String)> = Vec::new();
        assert(empty_values@.map_values(|e: (ThemeFile, String)| (e.0, e.1@)) =~= Seq::<(ThemeFile, Seq<char>)>::empty());
        note_empty_values(color_file, &u_colors, &mut empty_values);
        note_empty_values(ThemeFile::Icons, &u_icons, &mut empty_values);
        note_empty_values(ThemeFile::Filenames, &u_filenames, &mut empty_values);
        note_empty_values(ThemeFile::Folders, &u_folders, &mut empty_values);
        note_empty_values(ThemeFile::Aliases, &u_aliases, &mut empty_values);
        note_empty_values(ThemeFile::ExtensionColors, &u_ext_colors, &mut empty_values);
        let colors_raw = build_map(&d_colors, &u_colors);
        let colors = colors_from(&colors_raw);
        let icons_by_ext = build_map(&d_icons, &u_icons);
        let icons_by_filename = build_map(&d_filenames, &u_filenames);
        let icons_by_folder = build_map(&d_folders, &u_folders);
        let aliases = build_map(&d_aliases, &u_aliases);
        let ext_raw = build_map(&d_ext_colors, &u_ext_colors);
        let extension_colors = colors_from(&ext_raw);
        let t = Theme {
            colors,
            icons_by_ext,
            icons_by_filename,
            icons_by_folder,
            aliases,
            extension_colors,
            empty_values,
        };
        assert(t.empty_value_keys() =~= load_empty_values(*overrides, light));
        Ok(t)
    }

    /// The color of a category; white when the theme has none for it.
    pub fn color_for(&self, category: &str) -> (res: Color)
        ensures
            res == self.category_color(category@),
    {
        let key = category.to_string();
        match table_get(&self.colors, &key) {
            Option::Some(c) => c,
            Option::None => Color::White,
        }
    }
}


// ---------------------------------------------------------------------
// Laws
// ---------------------------------------------------------------------

/// A user file changes only the keys it names: every other key keeps its
/// default, present with the same value or absent.
pub proof fn lemma_user_file_keeps_other_keys(
    m: Map<Seq<char>, Seq<char>>,
    ps: Seq<(Seq<char>, Seq<char>)>,
    k: Seq<char>,
)
    requires
        forall|i: int| 0 <= i < ps.len() ==> spec_to_lowercase(#[trigger] ps[i].0) != k,
    ensures
        insert_pairs(m, ps, true).contains_key(k) == m.contains_key(k),
        m.contains_key(k) ==> insert_pairs(m, ps, true)[k] == m[k],
    decreases ps.len(),
{
    if ps.len() > 0 {
        assert(spec_to_lowercase(ps[ps.len() - 1].0) != k);
        assert forall|i: int| 0 <= i < ps.drop_last().len() implies spec_to_lowercase(
            #[trigger] ps.drop_last()[i].0,
        ) != k by {
            assert(ps.drop_last()[i] == ps[i]);
        }
        lemma_user_file_keeps_other_keys(m, ps.drop_last(), k);
    }
}

/// Each key a user file names (lowercased) takes the value of its last
/// entry for that key, whatever the default was.
pub proof fn lemma_user_file_sets_its_keys(m: Map<Seq<char>, Seq<char>>, ps: Seq<(Seq<char>, Seq<char>)>, i: int)
    requires
        0 <= i < ps.len(),
        forall|j: int| i < j < ps.len() ==> spec_to_lowercase(#[trigger] ps[j].0) != spec_to_lowercase(ps[i].0),
    ensures
        insert_pairs(m, ps, true).contains_key(spec_to_lowercase(ps[i].0)),
        insert_pairs(m, ps, true)[spec_to_lowercase(ps[i].0)] == ps[i].1,
    decreases ps.len(),
{
    if i < ps.len() - 1 {
        assert(spec_to_lowercase(ps[ps.len() - 1].0) != spec_to_lowercase(ps[i].0));
        assert(ps.drop_last()[i] == ps[i]);
        assert forall|j: int| i < j < ps.drop_last().len() implies spec_to_lowercase(
            #[trigger] ps.drop_last()[j].0,
        ) != spec_to_lowercase(ps.drop_last()[i].0) by {
            assert(ps.drop_last()[j] == ps[j]);
        }
        lemma_user_file_sets_its_keys(m, ps.drop_last(), i);
    }
}

/// A hexadecimal color reads the same with or without its leading `#`.
pub proof fn lemma_hex_hash_optional(h: Seq<char>)
    requires
        h.len() > 0 ==> h[0] != '#',
    ensures
        spec_hex_color(seq!['#'] + h) == spec_hex_color(h),
{
    assert((seq!['#'] + h).drop_first() =~= h);
}

/// Three hexadecimal digits stand for six, each digit doubled (`666` is
/// `666666`).
pub proof fn lemma_hex_short_form(a: char, b: char, c: char)
    requires
        hex_value(a) >= 0,
        hex_value(b) >= 0,
        hex_value(c) >= 0,
    ensures
        spec_hex_color(seq![a, b, c]) == spec_hex_color(seq![a, a, b, b, c, c]),
{
    let s = seq![a, b, c];
    let l = seq![a, a, b, b, c, c];
    assert(all_hex(s)) by {
        assert forall|i: int| 0 <= i < s.len() implies hex_value(#[trigger] s[i]) >= 0 by {}
    }
    assert(all_hex(l)) by {
        assert forall|i: int| 0 <= i < l.len() implies hex_value(#[trigger] l[i]) >= 0 by {}
    }
    assert(s[0] != '#');
    assert(l[0] != '#');
}

} // verus!
