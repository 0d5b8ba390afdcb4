//! Turning entries into output lines: a grid, a long listing, or a tree.

pub mod grid;
pub mod long;
pub mod tree;

use vstd::prelude::*;
use crate::cli::Cli;
use crate::colors::{paint, paint_color, painted};
use crate::entry::FileEntry;
use crate::icons::{entry_color, resolved_category, spec_entry_color, spec_resolved_category};
use crate::git::{GitRepoInfo, GitStatus};
use crate::theme::{Color, Theme};

verus! {

/// What every renderer needs: the options, the theme, whether colors and
/// icons are on, and the git status of the listed directory, if known.
pub struct RenderCtx<'a> {
    pub cli: &'a Cli,
    pub theme: &'a Theme,
    pub color_enabled: bool,
    pub icons_enabled: bool,
    pub git: Option<&'a GitRepoInfo>,
}

/// The glyph of a git status (see `GitStatus::glyph`).
pub open spec fn spec_glyph(st: GitStatus) -> Seq<char> {
    match st {
        GitStatus::Staged => "+"@,
        GitStatus::Modified => "!"@,
        GitStatus::Untracked => "?"@,
        GitStatus::Unmerged => "U"@,
        GitStatus::Ignored => "-"@,
        GitStatus::Clean => " "@,
    }
}

/// The color of a git status marker: the theme's color for its category.
pub open spec fn status_color(theme: Theme, st: GitStatus) -> Color {
    theme.category_color(st.spec_category())
}

impl<'a> RenderCtx<'a> {
    /// The git status marker for `path`, painted with its status color;
    /// `None` unless `--gs` is on and the git status is known.
    pub fn git_status_glyph(&self, path: &str) -> (res: Option<String>)
        ensures
            res is Some <==> (self.cli.git_status && self.git is Some),
            res matches Option::Some(g) ==> painted(
                g@,
                spec_glyph(self.git->0.spec_status_for(path@)),
                status_color(*self.theme, self.git->0.spec_status_for(path@)),
                self.color_enabled,
            ),
    {
        if !self.cli.git_status {
            return Option::None;
        }
        match self.git {
            Option::None => Option::None,
            Option::Some(info) => {
                let status = info.status_for(path);
                let glyph = status.glyph();
                Option::Some(paint(glyph, status.category(), self.theme, self.color_enabled))
            },
        }
    }
}

/// The color of an entry's label: its extension color when it has one
/// (see `spec_entry_color`), which wins over the color of its category.
pub open spec fn spec_label_color(e: FileEntry, theme: Theme) -> Color {
    match spec_entry_color(e, theme) {
        Option::Some(c) => c,
        Option::None => theme.category_color(spec_resolved_category(e, theme)),
    }
}

/// The color of an entry's label (see `spec_label_color`).
pub fn label_color(entry: &FileEntry, theme: &Theme) -> (res: Color)
    ensures
        res == spec_label_color(*entry, *theme),
{
    match entry_color(entry, theme) {
        Option::Some(c) => c,
        Option::None => {
            let category = resolved_category(entry, theme);
            theme.color_for(category.as_str())
        },
    }
}

/// The label of `entry` painted with its color (see `spec_label_color`).
pub fn paint_label(entry: &FileEntry, label: &str, ctx: &RenderCtx) -> (res: String)
    ensures
        painted(res@, label@, spec_label_color(*entry, *ctx.theme), ctx.color_enabled),
{
    let color = label_color(entry, ctx.theme);
    paint_color(label, color, ctx.color_enabled)
}

} // verus!
