//! The long listing: permissions, owner, group, size, date, git status,
//! icon and name, one entry per line, columns aligned.

use vstd::prelude::*;
use vstd::utf8::encode_utf8;
use crate::colors::paint;
use crate::entry::FileEntry;
use crate::icons::icon_for;
use crate::render::grid::spec_icon_text;
use crate::colors::painted;
use crate::render::{paint_label, spec_glyph, spec_label_color, status_color, RenderCtx};
use crate::text::{decimal, push_char, push_spaces, push_str, spaces, string_texts, u64_to_decimal};
use crate::theme::Theme;
use crate::util::{human_size, spec_human_size};

verus! {

broadcast use vstd::string::group_string_axioms;

/// Texts joined end to end.
pub open spec fn concat_all(ps: Seq<Seq<char>>) -> Seq<char>
    decreases ps.len(),
{
    if ps.len() == 0 {
        seq![]
    } else {
        concat_all(ps.drop_last()) + ps.last()
    }
}

/// The permission bit of the `i`-th permission letter (owner `rwx`, group
/// `rwx`, other `rwx`).
pub open spec fn perm_mask(i: int) -> u32 {
    if i == 0 {
        0o400
    } else if i == 1 {
        0o200
    } else if i == 2 {
        0o100
    } else if i == 3 {
        0o040
    } else if i == 4 {
        0o020
    } else if i == 5 {
        0o010
    } else if i == 6 {
        0o004
    } else if i == 7 {
        0o002
    } else {
        0o001
    }
}

/// The `i`-th permission letter when its bit is set.
pub open spec fn perm_letter(i: int) -> char {
    if i % 3 == 0 {
        'r'
    } else if i % 3 == 1 {
        'w'
    } else {
        'x'
    }
}

/// The `i`-th permission column: its letter when the bit is set, else `-`.
pub open spec fn perm_text(mode: u32, i: int) -> Seq<char> {
    if mode & perm_mask(i) != 0 {
        seq![perm_letter(i)]
    } else {
        seq!['-']
    }
}

/// The file type letter: `d` for a directory, `l` for a link, else `-`.
pub open spec fn kind_char(e: FileEntry) -> char {
    if e.is_dir {
        'd'
    } else if e.is_symlink {
        'l'
    } else {
        '-'
    }
}

/// The color category of the `i`-th permission letter.
pub open spec fn perm_letter_category(i: int) -> Seq<char> {
    if i % 3 == 0 {
        "permission_read"@
    } else if i % 3 == 1 {
        "permission_write"@
    } else {
        "permission_execute"@
    }
}

/// The color category of the `i`-th permission column: that of its letter
/// when the bit is set, `permission_none` otherwise.
pub open spec fn perm_category(mode: u32, i: int) -> Seq<char> {
    if mode & perm_mask(i) != 0 {
        perm_letter_category(i)
    } else {
        "permission_none"@
    }
}

/// `r` is the permission column of `e`: the type letter, then the nine
/// permission columns, each painted in the theme's color for its category.
pub open spec fn permissions_from(
    r: Seq<char>,
    e: FileEntry,
    ps: Seq<Seq<char>>,
    theme: Theme,
    color_enabled: bool,
) -> bool {
    &&& ps.len() == 9
    &&& forall|i: int|
        0 <= i < 9 ==> painted(
            #[trigger] ps[i],
            perm_text(e.mode, i),
            theme.category_color(perm_category(e.mode, i)),
            color_enabled,
        )
    &&& r == seq![kind_char(e)] + concat_all(ps)
}

fn perm_bit(i: usize) -> (res: (u32, char, &'static str))
    requires
        i < 9,
    ensures
        res.0 == perm_mask(i as int),
        res.1 == perm_letter(i as int),
        res.2@ == perm_letter_category(i as int),
{
    if i == 0 {
        (0o400, 'r', "permission_read")
    } else if i == 1 {
        (0o200, 'w', "permission_write")
    } else if i == 2 {
        (0o100, 'x', "permission_execute")
    } else if i == 3 {
        (0o040, 'r', "permission_read")
    } else if i == 4 {
        (0o020, 'w', "permission_write")
    } else if i == 5 {
        (0o010, 'x', "permission_execute")
    } else if i == 6 {
        (0o004, 'r', "permission_read")
    } else if i == 7 {
        (0o002, 'w', "permission_write")
    } else {
        (0o001, 'x', "permission_execute")
    }
}

/// The permission column of an entry, `drwxr-xr-x` style (see `permissions_from`).
pub fn permission_string(entry: &FileEntry, ctx: &RenderCtx) -> (res: String)
    ensures
        exists|ps: Seq<Seq<char>>| #[trigger] permissions_from(res@, *entry, ps, *ctx.theme, ctx.color_enabled),
{
    let kind = if entry.is_dir {
        'd'
    } else if entry.is_symlink {
        'l'
    } else {
        '-'
    };
    let mut s = String::new();
    push_char(&mut s, kind);
    let ghost mut ps: Seq<Seq<char>> = seq![];
    let mut i: usize = 0;
    while i < 9
        invariant
            i <= 9,
            ps.len() == i,
            kind == kind_char(*entry),
            forall|k: int|
                0 <= k < i ==> painted(
                    #[trigger] ps[k],
                    perm_text(entry.mode, k),
                    ctx.theme.category_color(perm_category(entry.mode, k)),
                    ctx.color_enabled,
                ),
            s@ == seq![kind] + concat_all(ps),
        decreases 9 - i,
    {
        let (mask, ch, cat) = perm_bit(i);
        let piece = if entry.mode & mask != 0 {
            let mut t = String::new();
            push_char(&mut t, ch);
            assert(t@ =~= perm_text(entry.mode, i as int));
            paint(t.as_str(), cat, ctx.theme, ctx.color_enabled)
        } else {
            let t = "-".to_string();
            proof {
                reveal_strlit("-");
            }
            assert(t@ =~= perm_text(entry.mode, i as int));
            paint(t.as_str(), "permission_none", ctx.theme, ctx.color_enabled)
        };
        let ghost before = ps;
        proof {
            ps = ps.push(piece@);
            assert(ps.drop_last() =~= before);
        }
        push_str(&mut s, piece.as_str());
        i = i + 1;
    }
    assert(permissions_from(s@, *entry, ps, *ctx.theme, ctx.color_enabled));
    s
}

/// The length of a text in bytes (UTF-8), as `str::len` reports it.
pub open spec fn byte_len(s: Seq<char>) -> int {
    encode_utf8(s).len() as usize as int
}

/// `s` right-aligned in `w` columns, as `{:>w$}` pads it: spaces before it
/// up to `w` characters.
pub open spec fn pad_left(s: Seq<char>, w: int) -> Seq<char> {
    if s.len() < w {
        spaces((w - s.len()) as nat) + s
    } else {
        s
    }
}

/// The widest of the texts in bytes, 1 when there are none.
pub open spec fn max_byte_len(ss: Seq<Seq<char>>) -> int
    decreases ss.len(),
{
    if ss.len() == 0 {
        1
    } else if ss.len() == 1 {
        byte_len(ss[0])
    } else {
        let m = max_byte_len(ss.drop_last());
        if byte_len(ss.last()) > m { byte_len(ss.last()) } else { m }
    }
}

/// The size column of an entry: `-` for a directory, else its human size.
pub open spec fn size_text(e: FileEntry) -> Seq<char> {
    if e.is_dir {
        seq!['-']
    } else {
        spec_human_size(e.size as nat)
    }
}

/// The date column: the formatted time, or `-` when the time is unknown.
pub open spec fn date_text(d: Option<String>) -> Seq<char> {
    match d {
        Option::Some(s) => s@,
        Option::None => seq!['-'],
    }
}

/// The label of a long listing: the name, `/` after a directory's, and
/// ` -> target` for a link.
pub open spec fn long_label(e: FileEntry) -> Seq<char> {
    let base = if e.is_dir { e.name@.push('/') } else { e.name@ };
    match e.symlink_target {
        Option::Some(t) => base + seq![' ', '-', '>', ' '] + t@,
        Option::None => base,
    }
}

/// The parts of one long line that are painted: the permissions `perm`,
/// the label `lab` and the git column `gc`.
pub open spec fn long_line_from<'a>(
    line: Seq<char>,
    e: FileEntry,
    ctx: RenderCtx<'a>,
    owner: (String, String),
    date: Option<String>,
    widths: (int, int, int),
    perm: Seq<char>,
    lab: Seq<char>,
    gc: Seq<char>,
) -> bool {
    &&& exists|ps: Seq<Seq<char>>| #[trigger] permissions_from(perm, e, ps, *ctx.theme, ctx.color_enabled)
    &&& painted(lab, long_label(e), spec_label_color(e, *ctx.theme), ctx.color_enabled)
    &&& if ctx.cli.git_status && ctx.git is Some {
        exists|g: Seq<char>|
            #![trigger painted(g, spec_glyph(ctx.git->0.spec_status_for(e.path@)), status_color(*ctx.theme, ctx.git->0.spec_status_for(e.path@)), ctx.color_enabled)]
            painted(
                g,
                spec_glyph(ctx.git->0.spec_status_for(e.path@)),
                status_color(*ctx.theme, ctx.git->0.spec_status_for(e.path@)),
                ctx.color_enabled,
            ) && gc == g + seq![' ']
    } else if ctx.cli.git_status {
        gc == seq![' ', ' ']
    } else {
        gc == Seq::<char>::empty()
    }
    &&& line == perm + seq![' ', ' '] + pad_left(owner.0@, widths.0) + seq![' ', ' '] + pad_left(owner.1@, widths.1)
        + seq![' ', ' '] + pad_left(size_text(e), widths.2) + seq![' ', ' '] + date_text(date) + seq![' ', ' '] + gc
        + spec_icon_text(e, ctx.icons_enabled, *ctx.theme) + lab
}


/// `line` is the long line of `e`, for some painting of its parts.
pub open spec fn long_line_ok<'a>(
    line: Seq<char>,
    e: FileEntry,
    ctx: RenderCtx<'a>,
    owner: (String, String),
    date: Option<String>,
    widths: (int, int, int),
) -> bool {
    exists|perm: Seq<char>, lab: Seq<char>, gc: Seq<char>|
        #[trigger] long_line_from(line, e, ctx, owner, date, widths, perm, lab, gc)
}

/// The owner names.
pub open spec fn user_texts(owners: Seq<(String, String)>) -> Seq<Seq<char>> {
    owners.map_values(|o: (String, String)| o.0@)
}

/// The group names.
pub open spec fn group_texts(owners: Seq<(String, String)>) -> Seq<Seq<char>> {
    owners.map_values(|o: (String, String)| o.1@)
}

/// The size columns.
pub open spec fn size_texts(entries: Seq<FileEntry>) -> Seq<Seq<char>> {
    entries.map_values(|e: FileEntry| size_text(e))
}

/// The widths of the owner, group and size columns: each its widest text in bytes.
pub open spec fn long_widths(entries: Seq<FileEntry>, owners: Seq<(String, String)>) -> (int, int, int) {
    (max_byte_len(user_texts(owners)), max_byte_len(group_texts(owners)), max_byte_len(size_texts(entries)))
}

/// Appends `s` right-aligned in `w` columns (see `pad_left`).
fn push_padded(out: &mut String, s: &str, w: usize)
    ensures
        final(out)@ == old(out)@ + pad_left(s@, w as int),
{
    let count = s.unicode_len();
    if count < w {
        push_spaces(out, w - count);
    }
    push_str(out, s);
}

/// The widest text in bytes (see `max_byte_len`).
fn widest(ss: &Vec<String>) -> (res: usize)
    ensures
        res as int == max_byte_len(string_texts(ss@)),
{
    let ghost t = string_texts(ss@);
    if ss.len() == 0 {
        return 1;
    }
    let mut m: usize = ss[0].as_str().len();
    assert(t[0] == ss@[0]@);
    assert(t.take(1).len() == 1 && t.take(1)[0] == t[0]);
    let mut i: usize = 1;
    while i < ss.len()
        invariant
            1 <= i <= ss@.len(),
            t == string_texts(ss@),
            m as int == max_byte_len(t.take(i as int)),
        decreases ss.len() - i,
    {
        let l = ss[i].as_str().len();
        assert(t[i as int] == ss@[i as int]@);
        assert(t.take(i + 1).drop_last() =~= t.take(i as int));
        assert(t.take(i + 1).last() == t[i as int]);
        if l > m {
            m = l;
        }
        i = i + 1;
    }
    assert(t.take(t.len() as int) =~= t);
    m
}

/// The label of a long listing (see `long_label`).
fn long_label_of(e: &FileEntry) -> (res: String)
    ensures
        res@ == long_label(*e),
{
    let mut label = e.name.clone();
    if e.is_dir {
        push_char(&mut label, '/');
    }
    if let Option::Some(t) = &e.symlink_target {
        push_str(&mut label, " -> ");
        proof {
            reveal_strlit(" -> ");
        }
        push_str(&mut label, t.as_str());
        assert(label@ =~= long_label(*e));
    }
    label
}

/// An owner or group column: the name found for the id, or the id in
/// decimal when there is none.
pub open spec fn owner_text(id: u32, name: Option<String>) -> Seq<char> {
    match name {
        Option::Some(n) => n@,
        Option::None => decimal(id as nat),
    }
}

/// The name of user `uid` in the system's user database
/// (`users::get_user_by_uid`), lossily converted to UTF-8; `None` when the
/// database has no such user. What it returns depends on the system the
/// program runs on, so nothing is stated of it.
#[verifier::external_body]
fn user_name(uid: u32) -> Option<String> {
    match users::get_user_by_uid(uid) {
        Option::Some(u) => Option::Some(u.name().to_string_lossy().to_string()),
        Option::None => Option::None,
    }
}

/// The name of group `gid` in the system's group database
/// (`users::get_group_by_gid`), lossily converted to UTF-8; `None` when the
/// database has no such group. What it returns depends on the system the
/// program runs on, so nothing is stated of it.
#[verifier::external_body]
fn group_name(gid: u32) -> Option<String> {
    match users::get_group_by_gid(gid) {
        Option::Some(g) => Option::Some(g.name().to_string_lossy().to_string()),
        Option::None => Option::None,
    }
}

/// The owner and group columns for the ids `uid` and `gid`, given the names
/// found for them (see `owner_text`).
pub fn owner_names(uid: u32, gid: u32, user: Option<String>, group: Option<String>) -> (res: (String, String))
    ensures
        res.0@ == owner_text(uid, user),
        res.1@ == owner_text(gid, group),
{
    let u = match user {
        Option::Some(n) => n,
        Option::None => u64_to_decimal(uid as u64),
    };
    let g = match group {
        Option::Some(n) => n,
        Option::None => u64_to_decimal(gid as u64),
    };
    (u, g)
}

/// The owner and group columns of an entry: the names the system's user
/// and group databases give for its ids, or the ids in decimal.
pub fn owner_group(entry: &FileEntry) -> (res: (String, String))
    ensures
        exists|u: Option<String>, g: Option<String>|
            #![trigger owner_text(entry.uid, u), owner_text(entry.gid, g)]
            res.0@ == owner_text(entry.uid, u) && res.1@ == owner_text(entry.gid, g),
{
    let user = user_name(entry.uid);
    let group = group_name(entry.gid);
    let ghost (u, g) = (user, group);
    let res = owner_names(entry.uid, entry.gid, user, group);
    assert(res.0@ == owner_text(entry.uid, u) && res.1@ == owner_text(entry.gid, g));
    res
}

/// The long listing of `entries`, one line each, with `owners` the owner
/// and group names and `dates` the formatted modification times (`None`
/// when unknown) of the entries. The owner, group and size columns are as
/// wide as their widest text in bytes.
pub fn render(
    entries: &Vec<FileEntry>,
    ctx: &RenderCtx,
    owners: &Vec<(String, String)>,
    dates: &Vec<Option<String>>,
) -> (res: Vec<String>)
    requires
        owners@.len() == entries@.len(),
        dates@.len() == entries@.len(),
    ensures
        res@.len() == entries@.len(),
        forall|i: int|
            0 <= i < res@.len() ==> #[trigger] long_line_ok(
                res@[i]@,
                entries@[i],
                *ctx,
                owners@[i],
                dates@[i],
                long_widths(entries@, owners@),
            ),
{
    let n = entries.len();
    let mut sizes: Vec<String> = Vec::new();
    let mut users: Vec<String> = Vec::new();
    let mut groups: Vec<String> = Vec::new();
    let mut i: usize = 0;
    while i < n
        invariant
            n == entries@.len(),
            n == owners@.len(),
            i <= n,
            string_texts(sizes@) == size_texts(entries@).take(i as int),
            string_texts(users@) == user_texts(owners@).take(i as int),
            string_texts(groups@) == group_texts(owners@).take(i as int),
            sizes@.len() == i,
            users@.len() == i,
            groups@.len() == i,
        decreases n - i,
    {
        let s = if entries[i].is_dir {
            let d = "-".to_string();
            proof {
                reveal_strlit("-");
            }
            d
        } else {
            human_size(entries[i].size)
        };
        assert(s@ =~= size_text(entries@[i as int]));
        let ghost (s0, u0, g0) = (string_texts(sizes@), string_texts(users@), string_texts(groups@));
        sizes.push(s);
        users.push(owners[i].0.clone());
        groups.push(owners[i].1.clone());
        assert(string_texts(sizes@) =~= s0.push(size_text(entries@[i as int])));
        assert(string_texts(sizes@) =~= size_texts(entries@).take(i + 1));
        assert(string_texts(users@) =~= u0.push(owners@[i as int].0@));
        assert(string_texts(users@) =~= user_texts(owners@).take(i + 1));
        assert(string_texts(groups@) =~= g0.push(owners@[i as int].1@));
        assert(string_texts(groups@) =~= group_texts(owners@).take(i + 1));
        i = i + 1;
    }
    assert(size_texts(entries@).take(n as int) =~= size_texts(entries@));
    assert(user_texts(owners@).take(n as int) =~= user_texts(owners@));
    assert(group_texts(owners@).take(n as int) =~= group_texts(owners@));
    let sw = widest(&sizes);
    let uw = widest(&users);
    let gw = widest(&groups);
    let ghost widths = (uw as int, gw as int, sw as int);
    let mut out: Vec<String> = Vec::new();
    let mut j: usize = 0;
    while j < n
        invariant
            n == entries@.len(),
            n == owners@.len(),
            n == dates@.len(),
            n == sizes@.len(),
            j <= n,
            out@.len() == j,
            string_texts(sizes@) == size_texts(entries@),
            widths == long_widths(entries@, owners@),
            widths == (uw as int, gw as int, sw as int),
            forall|k: int|
                0 <= k < j ==> #[trigger] long_line_ok(out@[k]@, entries@[k], *ctx, owners@[k], dates@[k], widths),
        decreases n - j,
    {
        let entry = &entries[j];
        let perms = permission_string(entry, ctx);
        let mut icon = String::new();
        if ctx.icons_enabled {
            icon = icon_for(entry, ctx.theme);
            push_char(&mut icon, ' ');
        }
        let label = long_label_of(entry);
        let colored = paint_label(entry, label.as_str(), ctx);
        let glyph = ctx.git_status_glyph(entry.path.as_str());
        let git_col = match glyph {
            Option::Some(g) => {
                let mut c = g;
                push_char(&mut c, ' ');
                c
            },
            Option::None => {
                let mut c = String::new();
                if ctx.cli.git_status {
                    push_char(&mut c, ' ');
                    push_char(&mut c, ' ');
                }
                c
            },
        };
        let mut line = String::new();
        push_str(&mut line, perms.as_str());
        push_spaces(&mut line, 2);
        push_padded(&mut line, owners[j].0.as_str(), uw);
        push_spaces(&mut line, 2);
        push_padded(&mut line, owners[j].1.as_str(), gw);
        push_spaces(&mut line, 2);
        assert(string_texts(sizes@)[j as int] == sizes@[j as int]@);
        assert(size_texts(entries@)[j as int] == size_text(entries@[j as int]));
        assert(sizes@[j as int]@ == size_text(entries@[j as int]));
        push_padded(&mut line, sizes[j].as_str(), sw);
        push_spaces(&mut line, 2);
        match &dates[j] {
            Option::Some(d) => push_str(&mut line, d.as_str()),
            Option::None => push_char(&mut line, '-'),
        }
        push_spaces(&mut line, 2);
        push_str(&mut line, git_col.as_str());
        push_str(&mut line, icon.as_str());
        push_str(&mut line, colored.as_str());
        proof {
            assert(spaces(2) =~= seq![' ', ' ']);
            assert(line@ =~= perms@ + seq![' ', ' '] + pad_left(owners@[j as int].0@, widths.0) + seq![' ', ' ']
                + pad_left(owners@[j as int].1@, widths.1) + seq![' ', ' '] + pad_left(size_text(*entry), widths.2)
                + seq![' ', ' '] + date_text(dates@[j as int]) + seq![' ', ' '] + git_col@
                + spec_icon_text(*entry, ctx.icons_enabled, *ctx.theme) + colored@);
            assert(painted(colored@, long_label(*entry), spec_label_color(*entry, *ctx.theme), ctx.color_enabled));
            if ctx.cli.git_status && ctx.git is Some {
                let g = glyph->0@;
                assert(git_col@ =~= g + seq![' ']);
                assert(painted(
                    g,
                    spec_glyph(ctx.git->0.spec_status_for(entry.path@)),
                    status_color(*ctx.theme, ctx.git->0.spec_status_for(entry.path@)),
                    ctx.color_enabled,
                ));
            } else if ctx.cli.git_status {
                assert(git_col@ =~= seq![' ', ' ']);
            } else {
                assert(git_col@ =~= Seq::<char>::empty());
            }
            assert(long_line_from(line@, *entry, *ctx, owners@[j as int], dates@[j as int], widths, perms@, colored@, git_col@));
        }
        out.push(line);
        j = j + 1;
    }
    out
}

proof fn lemma_concat_singletons(ps: Seq<Seq<char>>)
    requires
        forall|i: int| 0 <= i < ps.len() ==> (#[trigger] ps[i]).len() == 1,
    ensures
        concat_all(ps).len() == ps.len(),
        forall|i: int| 0 <= i < ps.len() ==> concat_all(ps)[i] == (#[trigger] ps[i])[0],
    decreases ps.len(),
{
    if ps.len() > 0 {
        lemma_concat_singletons(ps.drop_last());
        assert forall|i: int| 0 <= i < ps.len() implies concat_all(ps)[i] == (#[trigger] ps[i])[0] by {
            if i < ps.len() - 1 {
                assert(ps.drop_last()[i] == ps[i]);
            }
        }
    }
}

proof fn lemma_mask_bit(mode: u32, i: int)
    requires
        0 <= i < 9,
    ensures
        (mode & perm_mask(i) != 0) <==> ((mode >> ((8 - i) as u32)) & 1u32 == 1u32),
{
    if i == 0 {
        assert((mode & 0o400u32 != 0) <==> ((mode >> 8u32) & 1u32 == 1u32)) by (bit_vector);
    } else if i == 1 {
        assert((mode & 0o200u32 != 0) <==> ((mode >> 7u32) & 1u32 == 1u32)) by (bit_vector);
    } else if i == 2 {
        assert((mode & 0o100u32 != 0) <==> ((mode >> 6u32) & 1u32 == 1u32)) by (bit_vector);
    } else if i == 3 {
        assert((mode & 0o040u32 != 0) <==> ((mode >> 5u32) & 1u32 == 1u32)) by (bit_vector);
    } else if i == 4 {
        assert((mode & 0o020u32 != 0) <==> ((mode >> 4u32) & 1u32 == 1u32)) by (bit_vector);
    } else if i == 5 {
        assert((mode & 0o010u32 != 0) <==> ((mode >> 3u32) & 1u32 == 1u32)) by (bit_vector);
    } else if i == 6 {
        assert((mode & 0o004u32 != 0) <==> ((mode >> 2u32) & 1u32 == 1u32)) by (bit_vector);
    } else if i == 7 {
        assert((mode & 0o002u32 != 0) <==> ((mode >> 1u32) & 1u32 == 1u32)) by (bit_vector);
    } else if i == 8 {
        assert((mode & 0o001u32 != 0) <==> ((mode >> 0u32) & 1u32 == 1u32)) by (bit_vector);
    }
}

/// Without colors the permission column is the `ls` rendering of the mode:
/// the type letter (`d` for a directory, `l` for a link, `-` otherwise),
/// then for mode bits 8 down to 0 the letters `r`, `w`, `x` in turn where
/// the bit is set and `-` where it is not: the owner bits at positions 1-3,
/// the group bits at 4-6 and the other bits at 7-9.
pub proof fn lemma_permission_column(r: Seq<char>, e: FileEntry, ps: Seq<Seq<char>>, theme: Theme)
    requires
        permissions_from(r, e, ps, theme, false),
    ensures
        r.len() == 10,
        r[0] == (if e.is_dir {
            'd'
        } else if e.is_symlink {
            'l'
        } else {
            '-'
        }),
        forall|i: int|
            1 <= i < 10 ==> #[trigger] r[i] == (if (e.mode >> ((9 - i) as u32)) & 1u32 == 1u32 {
                if (i - 1) % 3 == 0 {
                    'r'
                } else if (i - 1) % 3 == 1 {
                    'w'
                } else {
                    'x'
                }
            } else {
                '-'
            }),
{
    assert forall|i: int| 0 <= i < ps.len() implies (#[trigger] ps[i]).len() == 1 by {
        assert(ps[i] == perm_text(e.mode, i));
    }
    lemma_concat_singletons(ps);
    assert forall|i: int|
        1 <= i < 10 implies #[trigger] r[i] == (if (e.mode >> ((9 - i) as u32)) & 1u32 == 1u32 {
            if (i - 1) % 3 == 0 {
                'r'
            } else if (i - 1) % 3 == 1 {
                'w'
            } else {
                'x'
            }
        } else {
            '-'
        }) by {
        assert(ps[i - 1] == perm_text(e.mode, i - 1));
        lemma_mask_bit(e.mode, i - 1);
        assert(r[i] == concat_all(ps)[i - 1]);
    }
}

} // verus!
