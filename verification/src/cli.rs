//! Command-line options of a listing, as plain values.

use vstd::prelude::*;
use crate::text::chars_of;
use crate::theme::UserConfig;

verus! {

/// When ANSI colors are used.
#[derive(Debug, Clone, Copy, PartialEq, Eq, Structural, Default)]
pub enum ColorWhen {
    #[default]
    Auto,
    Always,
    Never,
}

/// A sort key for listings.
#[derive(Debug, Clone, Copy, PartialEq, Eq, Structural)]
pub enum SortBy {
    Name,
    Time,
    Size,
    Extension,
    Unsorted,
}

/// The options of one run: which paths to list and how.
#[derive(Debug, Clone, Default)]
pub struct Cli {
    /// Files and/or directories to list; the current directory when empty.
    pub paths: Vec<String>,
    /// Show hidden entries, including `.` and `..`.
    pub all: bool,
    /// Show hidden entries, but omit `.` and `..`.
    pub almost_all: bool,
    /// Long listing (permissions, owner, size, date).
    pub long: bool,
    /// One entry per line.
    pub oneline: bool,
    /// Tree view with this maximum depth; `Some(0)` asks for the configured depth.
    pub tree: Option<usize>,
    /// Show per-entry git status.
    pub git_status: bool,
    /// Directories before files.
    pub group_directories_first: bool,
    /// Files before directories.
    pub sort_files_first: bool,
    /// Sort by modification time, newest first.
    pub sort_time: bool,
    /// Sort by size, largest first.
    pub sort_size: bool,
    /// Sort by extension.
    pub sort_extension: bool,
    /// Reverse the final order.
    pub reverse: bool,
    /// Light color scheme.
    pub light: bool,
    /// Dark color scheme.
    pub dark: bool,
    /// Print a summary after listing.
    pub report: bool,
    /// Disable icons.
    pub no_icons: bool,
    /// Force icons on.
    pub icons: bool,
    /// When to use colors.
    pub color: ColorWhen,
    /// Recurse into sub-directories.
    pub recursive: bool,
    /// Config directory (or a `config.yaml` in one) to use.
    pub config_path: Option<String>,
    /// Write the default config files and exit.
    pub init_config: bool,
    /// Print the resolved config directory and exit.
    pub print_config_dir: bool,
    /// Suppress non-fatal warnings.
    pub quiet: bool,
    /// Verbosity level.
    pub verbose: u8,
    /// Page the output through a pager.
    pub paginate: bool,
}

impl Cli {
    /// Hidden entries are shown with `-a` or `-A`.
    pub fn show_hidden(&self) -> (res: bool)
        ensures
            res == (self.all || self.almost_all),
    {
        self.all || self.almost_all
    }

    /// Whether synthetic `.` and `..` entries are added (`-a`, but not `-A`).
    pub fn include_dot_entries(&self) -> (res: bool)
        ensures
            res == (self.all && !self.almost_all),
    {
        self.all && !self.almost_all
    }
}


/// `c` with ASCII uppercase letters lowered.
pub open spec fn ascii_lower(c: char) -> char {
    if 'A' <= c && c <= 'Z' {
        ((c as u32) + 32) as char
    } else {
        c
    }
}

/// Equality ignoring ASCII case, as `str::eq_ignore_ascii_case` tests it.
pub open spec fn eq_ignore_ascii_case(a: Seq<char>, b: Seq<char>) -> bool {
    a.len() == b.len() && forall|i: int| 0 <= i < a.len() ==> ascii_lower(#[trigger] a[i]) == ascii_lower(b[i])
}

fn lower_ascii_char(c: char) -> (res: char)
    ensures
        res == ascii_lower(c),
{
    if 'A' <= c && c <= 'Z' {
        ((c as u32) + 32) as u8 as char
    } else {
        c
    }
}

/// Whether `s` reads `light` in any ASCII case.
fn is_light(s: &String) -> (res: bool)
    ensures
        res == eq_ignore_ascii_case(s@, "light"@),
{
    let cs = chars_of(s.as_str());
    let target = chars_of("light");
    if cs.len() != target.len() {
        return false;
    }
    let mut i: usize = 0;
    while i < cs.len()
        invariant
            i <= cs.len(),
            cs@ == s@,
            target@ == "light"@,
            cs@.len() == target@.len(),
            forall|j: int| 0 <= j < i ==> ascii_lower(#[trigger] cs@[j]) == ascii_lower(target@[j]),
        decreases cs.len() - i,
    {
        if lower_ascii_char(cs[i]) != lower_ascii_char(target[i]) {
            return false;
        }
        i = i + 1;
    }
    true
}

/// A flag given on the command line, else the setting, else off.
pub open spec fn flag_or(flag: bool, setting: Option<bool>) -> bool {
    flag || setting == Option::Some(true)
}

/// The light scheme: asked for, or set in the config when neither scheme
/// was asked for.
pub open spec fn spec_light_choice(light: bool, dark: bool, theme: Option<String>) -> bool {
    if !light && !dark && theme is Some && eq_ignore_ascii_case(theme->0@, "light"@) {
        true
    } else {
        light
    }
}

/// The tree depth: a bare `--tree` (depth 0) takes the configured depth
/// (at least 1), or 3.
pub open spec fn spec_tree_choice(tree: Option<usize>, configured: Option<usize>) -> Option<usize> {
    match tree {
        Option::Some(d) => if d == 0 {
            Option::Some(
                match configured {
                    Option::Some(t) => if t >= 1 { t } else { 1 },
                    Option::None => 3,
                },
            )
        } else {
            Option::Some(d)
        },
        Option::None => Option::None,
    }
}

fn flag_or_setting(flag: bool, setting: Option<bool>) -> (res: bool)
    ensures
        res == flag_or(flag, setting),
{
    if flag {
        true
    } else {
        match setting {
            Option::Some(b) => b,
            Option::None => false,
        }
    }
}

fn all_choice(all: bool, almost_all: bool, setting: Option<bool>) -> (res: bool)
    ensures
        res == (all || (!almost_all && setting == Option::Some(true))),
{
    if all {
        true
    } else if almost_all {
        false
    } else {
        setting == Option::Some(true)
    }
}

fn light_choice(light: bool, dark: bool, theme: &Option<String>) -> (res: bool)
    ensures
        res == spec_light_choice(light, dark, *theme),
{
    if !light && !dark {
        if let Option::Some(theme_name) = theme {
            if is_light(theme_name) {
                return true;
            }
        }
    }
    light
}

fn tree_choice(tree: Option<usize>, configured: Option<usize>) -> (res: Option<usize>)
    ensures
        res == spec_tree_choice(tree, configured),
{
    match tree {
        Option::Some(d) => if d == 0 {
            let t = match configured {
                Option::Some(t) => t,
                Option::None => 3,
            };
            Option::Some(if t >= 1 { t } else { 1 })
        } else {
            Option::Some(d)
        },
        Option::None => Option::None,
    }
}

impl Cli {
    /// Layer `config.yaml` settings under the flags given on the command
    /// line (each flag not given takes the setting's value); a bare `--tree` takes the
    /// configured depth (at least 1), or 3. The other options stay as they are.
    pub fn apply_settings(&mut self, settings: &UserConfig)
        ensures
            final(self).light == spec_light_choice(old(self).light, old(self).dark, settings.theme),
            final(self).git_status == flag_or(old(self).git_status, settings.git_status),
            final(self).group_directories_first == flag_or(old(self).group_directories_first, settings.group_directories_first),
            final(self).sort_files_first == flag_or(old(self).sort_files_first, settings.sort_files_first),
            final(self).report == flag_or(old(self).report, settings.report),
            final(self).all == (old(self).all || (!old(self).almost_all && settings.all == Option::Some(true))),
            final(self).long == flag_or(old(self).long, settings.long),
            final(self).tree == spec_tree_choice(old(self).tree, settings.tree_depth),
            final(self).paths == old(self).paths,
            final(self).almost_all == old(self).almost_all,
            final(self).oneline == old(self).oneline,
            final(self).sort_time == old(self).sort_time,
            final(self).sort_size == old(self).sort_size,
            final(self).sort_extension == old(self).sort_extension,
            final(self).reverse == old(self).reverse,
            final(self).dark == old(self).dark,
            final(self).no_icons == old(self).no_icons,
            final(self).icons == old(self).icons,
            final(self).color == old(self).color,
            final(self).recursive == old(self).recursive,
            final(self).config_path == old(self).config_path,
            final(self).init_config == old(self).init_config,
            final(self).print_config_dir == old(self).print_config_dir,
            final(self).quiet == old(self).quiet,
            final(self).verbose == old(self).verbose,
            final(self).paginate == old(self).paginate,
    {
        let light = light_choice(self.light, self.dark, &settings.theme);
        let git_status = flag_or_setting(self.git_status, settings.git_status);
        let group = flag_or_setting(self.group_directories_first, settings.group_directories_first);
        let files_first = flag_or_setting(self.sort_files_first, settings.sort_files_first);
        let report = flag_or_setting(self.report, settings.report);
        let all = all_choice(self.all, self.almost_all, settings.all);
        let long = flag_or_setting(self.long, settings.long);
        let tree = tree_choice(self.tree, settings.tree_depth);
        self.light = light;
        self.git_status = git_status;
        self.group_directories_first = group;
        self.sort_files_first = files_first;
        self.report = report;
        self.all = all;
        self.long = long;
        self.tree = tree;
    }

    /// Whether icons are shown: `--no-icons` wins, then `--icons`, then
    /// the `icons` setting, on by default.
    pub fn icons_enabled(&self, settings: &UserConfig) -> (res: bool)
        ensures
            res == (if self.no_icons {
                false
            } else if self.icons {
                true
            } else {
                settings.icons != Option::Some(false)
            }),
    {
        if self.no_icons {
            false
        } else if self.icons {
            true
        } else {
            match settings.icons {
                Option::Some(b) => b,
                Option::None => true,
            }
        }
    }
}

/// Whether colors are used: always or never as asked, and with `auto` when
/// the output goes to a terminal or to a pager (which is told to show them).
pub fn color_enabled(color: ColorWhen, output_is_terminal: bool, paging: bool) -> (res: bool)
    ensures
        res == match color {
            ColorWhen::Always => true,
            ColorWhen::Never => false,
            ColorWhen::Auto => output_is_terminal || paging,
        },
{
    match color {
        ColorWhen::Always => true,
        ColorWhen::Never => false,
        ColorWhen::Auto => output_is_terminal || paging,
    }
}

/// The command line wins over `config.yaml`: a flag given stays on
/// whatever the setting says, a scheme asked for (`--light` or `--dark`) is
/// kept, and an explicit `--tree=N` keeps its depth; a flag not given
/// takes the setting, off when unset.
pub proof fn lemma_command_line_wins(
    flag: bool,
    setting: Option<bool>,
    light: bool,
    dark: bool,
    theme: Option<String>,
    depth: usize,
    configured: Option<usize>,
)
    ensures
        flag ==> flag_or(flag, setting),
        !flag ==> flag_or(flag, setting) == (setting == Option::Some(true)),
        light || dark ==> spec_light_choice(light, dark, theme) == light,
        depth > 0 ==> spec_tree_choice(Option::Some(depth), configured) == Option::Some(depth),
{
}

} // verus!
