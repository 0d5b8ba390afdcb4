//! The tree view (`--tree`): one directory level at a time, each entry on a
//! line after the branch drawing of its place; a subdirectory is walked
//! right after its own line, one level deeper.

use vstd::prelude::*;
use crate::cli::Cli;
use crate::colors::paint;
use crate::entry::{entry_name, spec_entry_name, FileEntry};
use crate::icons::icon_for;
use crate::listing::{retain_shown, shown};
use crate::render::grid::spec_icon_text;
use crate::render::long::long_label;
use crate::colors::painted;
use crate::render::{paint_label, spec_glyph, spec_label_color, status_color, RenderCtx};
use crate::sorter::{is_listing_order, sort_entries};
use crate::text::{opt_view, push_char, push_str};

verus! {

broadcast use vstd::string::group_string_axioms;

/// The depth the tree goes down to: the one asked for, 3 by default.
pub fn tree_max_depth(cli: &Cli) -> (res: usize)
    ensures
        res == (match cli.tree {
            Option::Some(d) => d,
            Option::None => 3,
        }),
{
    match cli.tree {
        Option::Some(d) => d,
        Option::None => 3,
    }
}

/// Whether the level at `depth` (the root's children are at depth 1) is
/// listed at all.
pub fn tree_descends(depth: usize, max_depth: usize) -> (res: bool)
    ensures
        res == (depth <= max_depth),
{
    depth <= max_depth
}

/// The first line of a tree: the root's name, painted as a directory.
pub fn tree_header(root: &str, ctx: &RenderCtx) -> (res: String)
    ensures
        painted(res@, spec_entry_name(root@), ctx.theme.category_color("dir"@), ctx.color_enabled),
{
    let name = entry_name(root);
    paint(name.as_str(), "dir", ctx.theme, ctx.color_enabled)
}

/// The branch drawn before an entry: `└── ` for the last of its level,
/// `├── ` for the others.
pub open spec fn branch_glyph(is_last: bool) -> Seq<char> {
    if is_last {
        seq!['\u{2514}', '\u{2500}', '\u{2500}', ' ']
    } else {
        seq!['\u{251c}', '\u{2500}', '\u{2500}', ' ']
    }
}

/// What the lines below an entry add to the prefix: blank under the last
/// of its level, `│   ` under the others.
pub open spec fn indent_glyph(is_last: bool) -> Seq<char> {
    if is_last {
        seq![' ', ' ', ' ', ' ']
    } else {
        seq!['\u{2502}', ' ', ' ', ' ']
    }
}

fn branch_text(is_last: bool) -> (res: String)
    ensures
        res@ == branch_glyph(is_last),
{
    let mut s = String::new();
    if is_last {
        push_char(&mut s, '\u{2514}');
    } else {
        push_char(&mut s, '\u{251c}');
    }
    push_char(&mut s, '\u{2500}');
    push_char(&mut s, '\u{2500}');
    push_char(&mut s, ' ');
    assert(s@ =~= branch_glyph(is_last));
    s
}

fn indent_text(is_last: bool) -> (res: String)
    ensures
        res@ == indent_glyph(is_last),
{
    let mut s = String::new();
    if is_last {
        push_char(&mut s, ' ');
    } else {
        push_char(&mut s, '\u{2502}');
    }
    push_char(&mut s, ' ');
    push_char(&mut s, ' ');
    push_char(&mut s, ' ');
    assert(s@ =~= indent_glyph(is_last));
    s
}

/// One line of a tree level: the entry, its line, and, for a subdirectory
/// that is walked next, the prefix of the lines below it.
pub struct TreeLine {
    pub entry: FileEntry,
    pub line: String,
    pub child_prefix: Option<String>,
}

/// The entries of a tree level, in order.
pub open spec fn tree_entries(ls: Seq<TreeLine>) -> Seq<FileEntry> {
    ls.map_values(|t: TreeLine| t.entry)
}

/// `gc` is the git column of a tree line: the painted status marker and a
/// space with `--gs` when the git status is known, nothing otherwise.
pub open spec fn tree_git_col<'a>(gc: Seq<char>, e: FileEntry, ctx: RenderCtx<'a>) -> bool {
    if ctx.cli.git_status && ctx.git is Some {
        exists|g: Seq<char>|
            #![trigger painted(g, spec_glyph(ctx.git->0.spec_status_for(e.path@)), status_color(*ctx.theme, ctx.git->0.spec_status_for(e.path@)), ctx.color_enabled)]
            painted(
                g,
                spec_glyph(ctx.git->0.spec_status_for(e.path@)),
                status_color(*ctx.theme, ctx.git->0.spec_status_for(e.path@)),
                ctx.color_enabled,
            ) && gc == g + seq![' ']
    } else {
        gc == Seq::<char>::empty()
    }
}

/// `line` is the tree line of `e` under `prefix`, with `br` its painted
/// branch, `gc` its git column and `lab` its painted label.
pub open spec fn tree_line_from<'a>(
    line: Seq<char>,
    e: FileEntry,
    ctx: RenderCtx<'a>,
    prefix: Seq<char>,
    is_last: bool,
    br: Seq<char>,
    gc: Seq<char>,
    lab: Seq<char>,
) -> bool {
    &&& painted(br, branch_glyph(is_last), ctx.theme.category_color("tree_branch"@), ctx.color_enabled)
    &&& tree_git_col(gc, e, ctx)
    &&& painted(lab, long_label(e), spec_label_color(e, *ctx.theme), ctx.color_enabled)
    &&& line == prefix + br + gc + spec_icon_text(e, ctx.icons_enabled, *ctx.theme) + lab
}

/// `t` is the tree line of its entry under `prefix`, the last of its level
/// or not; a real directory (not a link) is walked next with the prefix
/// extended by `indent_glyph`.
pub open spec fn tree_line_ok<'a>(t: TreeLine, prefix: Seq<char>, is_last: bool, ctx: RenderCtx<'a>) -> bool {
    &&& exists|br: Seq<char>, gc: Seq<char>, lab: Seq<char>|
        #[trigger] tree_line_from(t.line@, t.entry, ctx, prefix, is_last, br, gc, lab)
    &&& opt_view(t.child_prefix) == if t.entry.is_dir && !t.entry.is_symlink {
        Option::Some(prefix + indent_glyph(is_last))
    } else {
        Option::None
    }
}

/// One level of a tree: the children `entries` of a directory, those shown
/// in listing order, each with its line under `prefix`.
pub fn tree_level(entries: Vec<FileEntry>, prefix: &str, ctx: &RenderCtx) -> (res: Vec<TreeLine>)
    ensures
        is_listing_order(tree_entries(res@), shown(entries@, *ctx.cli), *ctx.cli),
        forall|i: int|
            0 <= i < res@.len() ==> tree_line_ok(#[trigger] res@[i], prefix@, i == res@.len() - 1, *ctx),
{
    let mut listed = retain_shown(entries, ctx.cli);
    sort_entries(&mut listed, ctx.cli);
    let ghost sorted = listed@;
    let n = listed.len();
    let mut rest = listed;
    crate::sorter::reverse_entries(&mut rest);
    let mut out: Vec<TreeLine> = Vec::new();
    while rest.len() > 0
        invariant
            n == sorted.len(),
            out@.len() + rest@.len() == n,
            forall|j: int| 0 <= j < rest@.len() ==> #[trigger] rest@[j] == sorted[n - 1 - j],
            forall|k: int| 0 <= k < out@.len() ==> #[trigger] out@[k].entry == sorted[k],
            forall|k: int| 0 <= k < out@.len() ==> tree_line_ok(#[trigger] out@[k], prefix@, k == n - 1, *ctx),
        decreases rest@.len(),
    {
        let ghost before = rest@;
        let k = out.len();
        let entry = rest.pop().unwrap();
        proof {
            assert(entry == sorted[k as int]);
            assert forall|j: int| 0 <= j < rest@.len() implies #[trigger] rest@[j] == sorted[n - 1 - j] by {
                assert(rest@[j] == before[j]);
            }
        }
        let is_last = k + 1 == n;
        let mut icon = String::new();
        if ctx.icons_enabled {
            icon = icon_for(&entry, ctx.theme);
            push_char(&mut icon, ' ');
        }
        let mut label = entry.name.clone();
        if entry.is_dir {
            push_char(&mut label, '/');
        }
        if let Option::Some(t) = &entry.symlink_target {
            push_str(&mut label, " -> ");
            proof {
                reveal_strlit(" -> ");
            }
            push_str(&mut label, t.as_str());
        }
        assert(label@ =~= long_label(entry));
        let colored = paint_label(&entry, label.as_str(), ctx);
        let glyph = ctx.git_status_glyph(entry.path.as_str());
        let git_col = match glyph {
            Option::Some(g) => {
                let mut c = g;
                push_char(&mut c, ' ');
                c
            },
            Option::None => String::new(),
        };
        let connector = branch_text(is_last);
        let branch = paint(connector.as_str(), "tree_branch", ctx.theme, ctx.color_enabled);
        let mut line = String::new();
        push_str(&mut line, prefix);
        push_str(&mut line, branch.as_str());
        push_str(&mut line, git_col.as_str());
        push_str(&mut line, icon.as_str());
        push_str(&mut line, colored.as_str());
        let child_prefix = if entry.is_dir && !entry.is_symlink {
            let mut p = prefix.to_string();
            let ind = indent_text(is_last);
            push_str(&mut p, ind.as_str());
            assert(p@ =~= prefix@ + indent_glyph(is_last));
            Option::Some(p)
        } else {
            Option::None
        };
        proof {
            assert(painted(branch@, branch_glyph(is_last), ctx.theme.category_color("tree_branch"@), ctx.color_enabled));
            assert(painted(colored@, long_label(entry), spec_label_color(entry, *ctx.theme), ctx.color_enabled));
            if ctx.cli.git_status && ctx.git is Some {
                let g = glyph->0@;
                assert(git_col@ =~= g + seq![' ']);
                assert(painted(
                    g,
                    spec_glyph(ctx.git->0.spec_status_for(entry.path@)),
                    status_color(*ctx.theme, ctx.git->0.spec_status_for(entry.path@)),
                    ctx.color_enabled,
                ));
                assert(tree_git_col(git_col@, entry, *ctx));
            } else {
                assert(git_col@ =~= Seq::<char>::empty());
            }
            assert(line@ =~= prefix@ + branch@ + git_col@ + spec_icon_text(entry, ctx.icons_enabled, *ctx.theme)
                + colored@);
            assert(tree_line_from(line@, entry, *ctx, prefix@, is_last, branch@, git_col@, colored@));
        }
        let t = TreeLine { entry, line, child_prefix };
        assert(opt_view(t.child_prefix) == if t.entry.is_dir && !t.entry.is_symlink {
            Option::Some(prefix@ + indent_glyph(is_last))
        } else {
            Option::None
        });
        assert(tree_line_from(t.line@, t.entry, *ctx, prefix@, k == n - 1, branch@, git_col@, colored@));
        assert(tree_line_ok(t, prefix@, k == n - 1, *ctx));
        out.push(t);
        assert(tree_line_ok(out@[k as int], prefix@, k == n - 1, *ctx));
    }
    assert(tree_entries(out@) =~= sorted);
    out
}

} // verus!
