//! What one directory listing shows: which entries and in what order, the
//! summary line of `--report`, the branch line of `--gs`, and where a
//! recursive listing (`-R`) goes next.

use vstd::prelude::*;
use crate::cli::Cli;
use crate::colors::{paint, painted};
use crate::entry::FileEntry;
use crate::sorter::{compare_char_vecs, compare_chars, is_listing_order, lemma_compare_chars, reverse_entries, sort_entries};
use crate::text::{chars_of, decimal, push_char, push_decimal, push_str, string_texts};
use crate::theme::Theme;
use crate::util::{human_size, spec_human_size};

verus! {

broadcast use vstd::string::group_string_axioms;

/// Dotfiles are hidden (see `FileEntry::is_hidden`).
pub open spec fn spec_is_hidden(e: FileEntry) -> bool {
    e.name@.len() > 0 && e.name@[0] == '.'
}

/// The entries of `s` a listing shows, in their order: hidden ones only
/// with `-a` or `-A`.
pub open spec fn shown(s: Seq<FileEntry>, cli: Cli) -> Seq<FileEntry>
    decreases s.len(),
{
    if s.len() == 0 {
        seq![]
    } else {
        let rest = shown(s.drop_last(), cli);
        if cli.all || cli.almost_all || !spec_is_hidden(s.last()) {
            rest.push(s.last())
        } else {
            rest
        }
    }
}

/// The entries a listing shows (see `shown`).
pub fn retain_shown(entries: Vec<FileEntry>, cli: &Cli) -> (res: Vec<FileEntry>)
    ensures
        res@ == shown(entries@, *cli),
{
    let ghost s = entries@;
    let show = cli.show_hidden();
    let mut rest = entries;
    reverse_entries(&mut rest);
    let mut out: Vec<FileEntry> = Vec::new();
    let ghost mut k: int = 0;
    assert(s.take(0) =~= Seq::<FileEntry>::empty());
    while rest.len() > 0
        invariant
            0 <= k <= s.len(),
            rest@.len() == s.len() - k,
            forall|j: int| 0 <= j < rest@.len() ==> #[trigger] rest@[j] == s[s.len() - 1 - j],
            out@ == shown(s.take(k), *cli),
            show == (cli.all || cli.almost_all),
        decreases rest@.len(),
    {
        let ghost before = rest@;
        let e = rest.pop().unwrap();
        proof {
            assert(e == before[before.len() - 1]);
            assert(e == s[k]);
            assert(s.take(k + 1).drop_last() =~= s.take(k));
            assert(s.take(k + 1).last() == s[k]);
            assert forall|j: int| 0 <= j < rest@.len() implies #[trigger] rest@[j] == s[s.len() - 1 - j] by {
                assert(rest@[j] == before[j]);
            }
        }
        if show || !e.is_hidden() {
            out.push(e);
        }
        proof {
            k = k + 1;
        }
    }
    assert(s.take(s.len() as int) =~= s);
    out
}

/// Whether `.` and `..` head the listing (`-a`, but not `-A`).
pub open spec fn lists_dot_entries(cli: Cli) -> bool {
    cli.all && !cli.almost_all
}

/// `res` is the flat listing of a directory whose entries are `s`, with
/// `dots` its `.` and `..` entries when they could be read: those first
/// when `-a` asks for them, then the shown entries in listing order.
pub open spec fn flat_listing(res: Seq<FileEntry>, s: Seq<FileEntry>, dots: Option<Seq<FileEntry>>, cli: Cli) -> bool {
    let head = if lists_dot_entries(cli) && dots is Some {
        dots->0
    } else {
        seq![]
    };
    &&& head.len() <= res.len()
    &&& res.take(head.len() as int) == head
    &&& is_listing_order(res.skip(head.len() as int), shown(s, cli), cli)
}

/// The view of optional entries.
pub open spec fn opt_entries(dots: Option<Vec<FileEntry>>) -> Option<Seq<FileEntry>> {
    match dots {
        Option::Some(d) => Option::Some(d@),
        Option::None => Option::None,
    }
}

/// The flat listing of a directory (see `flat_listing`): `entries` are its
/// children, `dots` its `.` and `..` entries when they could be read.
pub fn list_dir_flat(entries: Vec<FileEntry>, dots: Option<Vec<FileEntry>>, cli: &Cli) -> (res: Vec<FileEntry>)
    ensures
        flat_listing(res@, entries@, opt_entries(dots), *cli),
{
    let ghost s = entries@;
    let mut listed = retain_shown(entries, cli);
    sort_entries(&mut listed, cli);
    let ghost sorted = listed@;
    if cli.include_dot_entries() {
        if let Option::Some(d) = dots {
            let ghost head = d@;
            let mut out = d;
            out.append(&mut listed);
            assert(out@.take(head.len() as int) =~= head);
            assert(out@.skip(head.len() as int) =~= sorted);
            return out;
        }
    }
    assert(listed@.take(0) =~= Seq::<FileEntry>::empty());
    assert(listed@.skip(0) =~= listed@);
    listed
}

/// How many of the entries are directories.
pub open spec fn dir_count(s: Seq<FileEntry>) -> nat
    decreases s.len(),
{
    if s.len() == 0 {
        0
    } else {
        dir_count(s.drop_last()) + if s.last().is_dir { 1nat } else { 0nat }
    }
}

/// The total size of the entries that are not directories.
pub open spec fn file_size_total(s: Seq<FileEntry>) -> nat
    decreases s.len(),
{
    if s.len() == 0 {
        0
    } else {
        file_size_total(s.drop_last()) + if s.last().is_dir { 0nat } else { s.last().size as nat }
    }
}

proof fn lemma_dir_count_bound(s: Seq<FileEntry>)
    ensures
        dir_count(s) <= s.len(),
    decreases s.len(),
{
    if s.len() > 0 {
        lemma_dir_count_bound(s.drop_last());
    }
}

proof fn lemma_file_size_total_grows(s: Seq<FileEntry>, k: int)
    requires
        0 <= k <= s.len(),
    ensures
        file_size_total(s.take(k)) <= file_size_total(s),
    decreases s.len() - k,
{
    if k < s.len() {
        lemma_file_size_total_grows(s, k + 1);
        assert(s.take(k + 1).drop_last() =~= s.take(k));
    } else {
        assert(s.take(k) =~= s);
    }
}

/// The total size of the files among `entries`; `None` when it does not
/// fit in a `u64`.
pub fn total_file_size(entries: &Vec<FileEntry>) -> (res: Option<u64>)
    ensures
        res == (if file_size_total(entries@) <= u64::MAX {
            Option::Some(file_size_total(entries@) as u64)
        } else {
            Option::None
        }),
{
    let ghost s = entries@;
    let mut total: u64 = 0;
    let mut i: usize = 0;
    assert(s.take(0) =~= Seq::<FileEntry>::empty());
    while i < entries.len()
        invariant
            s == entries@,
            i <= s.len(),
            total as nat == file_size_total(s.take(i as int)),
        decreases s.len() - i,
    {
        assert(s.take(i + 1).drop_last() =~= s.take(i as int));
        assert(s.take(i + 1).last() == s[i as int]);
        if !entries[i].is_dir {
            match total.checked_add(entries[i].size) {
                Option::Some(t) => total = t,
                Option::None => {
                    proof {
                        lemma_file_size_total_grows(s, i + 1);
                    }
                    return Option::None;
                },
            }
        }
        i = i + 1;
    }
    assert(s.take(s.len() as int) =~= s);
    Option::Some(total)
}

/// The `--report` summary of a listing: a blank line, then how many
/// directories and files it has and the total size of the files.
pub open spec fn report_text(s: Seq<FileEntry>) -> Seq<char> {
    seq!['\n'] + decimal(dir_count(s)) + " directories, "@ + decimal((s.len() - dir_count(s)) as nat)
        + " files, "@ + spec_human_size(file_size_total(s)) + " total"@
}

/// The `--report` summary (see `report_text`), painted as a report.
pub fn report_line(entries: &Vec<FileEntry>, theme: &Theme, color_enabled: bool) -> (res: String)
    requires
        file_size_total(entries@) <= u64::MAX,
    ensures
        painted(res@, report_text(entries@), theme.category_color("report"@), color_enabled),
{
    let ghost s = entries@;
    let mut dirs: usize = 0;
    let mut i: usize = 0;
    assert(s.take(0) =~= Seq::<FileEntry>::empty());
    while i < entries.len()
        invariant
            s == entries@,
            i <= s.len(),
            dirs as nat == dir_count(s.take(i as int)),
            dirs <= i,
        decreases s.len() - i,
    {
        assert(s.take(i + 1).drop_last() =~= s.take(i as int));
        assert(s.take(i + 1).last() == s[i as int]);
        if entries[i].is_dir {
            dirs = dirs + 1;
        }
        i = i + 1;
    }
    assert(s.take(s.len() as int) =~= s);
    let files = entries.len() - dirs;
    let total = match total_file_size(entries) {
        Option::Some(t) => t,
        Option::None => 0,
    };
    let mut text = String::new();
    push_char(&mut text, '\n');
    push_decimal(&mut text, dirs as u128);
    push_str(&mut text, " directories, ");
    push_decimal(&mut text, files as u128);
    push_str(&mut text, " files, ");
    let size = human_size(total);
    push_str(&mut text, size.as_str());
    push_str(&mut text, " total");
    assert(text@ =~= report_text(s));
    paint(text.as_str(), "report", theme, color_enabled)
}

/// A directory that `-R` descends into: a real directory, not a link,
/// nor `.` or `..`.
pub open spec fn is_real_subdir(e: FileEntry) -> bool {
    e.is_dir && !e.is_symlink && e.name@ != seq!['.'] && e.name@ != seq!['.', '.']
}

/// The paths of the real subdirectories among `s`, in their order.
pub open spec fn subdir_paths(s: Seq<FileEntry>) -> Seq<Seq<char>>
    decreases s.len(),
{
    if s.len() == 0 {
        seq![]
    } else {
        let rest = subdir_paths(s.drop_last());
        if is_real_subdir(s.last()) {
            rest.push(s.last().path@)
        } else {
            rest
        }
    }
}

/// Texts in ascending order, character by character.
pub open spec fn texts_sorted(r: Seq<Seq<char>>) -> bool {
    forall|i: int, j: int| 0 <= i < j < r.len() ==> compare_chars(#[trigger] r[i], #[trigger] r[j]) <= 0
}

fn is_dot_name(s: &str) -> (res: bool)
    ensures
        res == (s@ == seq!['.'] || s@ == seq!['.', '.']),
{
    let n = s.unicode_len();
    if n == 1 {
        let c = s.get_char(0);
        if c == '.' {
            assert(s@ =~= seq!['.']);
        }
        c == '.'
    } else if n == 2 {
        let c0 = s.get_char(0);
        let c1 = s.get_char(1);
        if c0 == '.' && c1 == '.' {
            assert(s@ =~= seq!['.', '.']);
        }
        c0 == '.' && c1 == '.'
    } else {
        false
    }
}

/// Where `-R` goes after listing `entries`: the paths of their real
/// subdirectories, in ascending order. (All of them share one parent, so
/// this is also the order of their last components.)
pub fn subdirectories(entries: &Vec<FileEntry>) -> (res: Vec<String>)
    ensures
        texts_sorted(string_texts(res@)),
        string_texts(res@).to_multiset() == subdir_paths(entries@).to_multiset(),
        forall|i: int|
            0 <= i < entries@.len() && (#[trigger] entries@[i]).is_dir && !entries@[i].is_symlink
                && entries@[i].name@ != seq!['.'] && entries@[i].name@ != seq!['.', '.'] ==> string_texts(
                res@,
            ).contains(entries@[i].path@),
{
    let ghost s = entries@;
    let mut out: Vec<String> = Vec::new();
    let mut keys: Vec<Vec<char>> = Vec::new();
    let mut i: usize = 0;
    assert(s.take(0) =~= Seq::<FileEntry>::empty());
    assert(string_texts(out@) =~= Seq::<Seq<char>>::empty());
    while i < entries.len()
        invariant
            s == entries@,
            i <= s.len(),
            keys@.len() == out@.len(),
            forall|k: int| 0 <= k < keys@.len() ==> #[trigger] keys@[k]@ == out@[k]@,
            texts_sorted(string_texts(out@)),
            string_texts(out@).to_multiset() == subdir_paths(s.take(i as int)).to_multiset(),
        decreases s.len() - i,
    {
        assert(s.take(i + 1).drop_last() =~= s.take(i as int));
        assert(s.take(i + 1).last() == s[i as int]);
        let e = &entries[i];
        if e.is_dir && !e.is_symlink && !is_dot_name(e.name.as_str()) {
            let ghost ov = string_texts(out@);
            let x = chars_of(e.path.as_str());
            let mut pos: usize = 0;
            while pos < keys.len() && compare_char_vecs(&keys[pos], &x) <= 0
                invariant
                    pos <= keys@.len(),
                    keys@.len() == out@.len(),
                    ov == string_texts(out@),
                    forall|k: int| 0 <= k < keys@.len() ==> #[trigger] keys@[k]@ == out@[k]@,
                    forall|k: int| 0 <= k < pos ==> compare_chars(#[trigger] ov[k], x@) <= 0,
                decreases keys@.len() - pos,
            {
                assert(ov[pos as int] == keys@[pos as int]@);
                pos = pos + 1;
            }
            proof {
                if pos < keys@.len() {
                    assert(ov[pos as int] == keys@[pos as int]@);
                    assert(compare_chars(ov[pos as int], x@) > 0);
                }
            }
            out.insert(pos, e.path.clone());
            keys.insert(pos, x);
            proof {
                let nv = string_texts(out@);
                assert(nv =~= ov.insert(pos as int, x@));
                assert forall|a: int, b: int| 0 <= a < b < nv.len() implies compare_chars(
                    #[trigger] nv[a],
                    #[trigger] nv[b],
                ) <= 0 by {
                    if a < pos && b < pos {
                        assert(nv[a] == ov[a] && nv[b] == ov[b]);
                    } else if a < pos && b == pos {
                        assert(nv[a] == ov[a]);
                    } else if a < pos {
                        assert(nv[a] == ov[a] && nv[b] == ov[b - 1]);
                        lemma_compare_chars(ov[a], x@, ov[b - 1]);
                        lemma_compare_chars(x@, ov[pos as int], ov[b - 1]);
                        lemma_compare_chars(ov[a], ov[pos as int], ov[b - 1]);
                        lemma_compare_chars(ov[pos as int], x@, ov[b - 1]);
                        if b - 1 > pos {
                            assert(compare_chars(ov[pos as int], ov[b - 1]) <= 0);
                        }
                        assert(compare_chars(ov[a], ov[b - 1]) <= 0);
                    } else if a == pos {
                        assert(nv[b] == ov[b - 1]);
                        lemma_compare_chars(x@, ov[pos as int], ov[b - 1]);
                        lemma_compare_chars(ov[pos as int], x@, ov[b - 1]);
                        if b - 1 > pos {
                            assert(compare_chars(ov[pos as int], ov[b - 1]) <= 0);
                        }
                    } else {
                        assert(nv[a] == ov[a - 1] && nv[b] == ov[b - 1]);
                    }
                }
                assert forall|k: int| 0 <= k < keys@.len() implies #[trigger] keys@[k]@ == out@[k]@ by {
                    if k < pos {
                    } else if k > pos {
                    }
                }
                assert(subdir_paths(s.take(i + 1)) == subdir_paths(s.take(i as int)).push(e.path@));
                assert(x@ == e.path@);
                vstd::seq_lib::to_multiset_insert(ov, pos as int, x@);
                vstd::seq_lib::to_multiset_build(subdir_paths(s.take(i as int)), e.path@);
                assert(ov.insert(pos as int, x@).to_multiset() == ov.to_multiset().insert(x@));
                assert(subdir_paths(s.take(i as int)).push(e.path@).to_multiset()
                    == subdir_paths(s.take(i as int)).to_multiset().insert(e.path@));
                assert(string_texts(out@).to_multiset() == ov.insert(pos as int, x@).to_multiset());
            }
        } else {
            proof {
                if e.is_dir && !e.is_symlink {
                    assert(!is_real_subdir(*e));
                }
                assert(subdir_paths(s.take(i + 1)) == subdir_paths(s.take(i as int)));
            }
        }
        i = i + 1;
    }
    assert(s.take(s.len() as int) =~= s);
    proof {
        lemma_subdir_paths_complete(s);
        assert forall|i: int|
            0 <= i < s.len() && (#[trigger] s[i]).is_dir && !s[i].is_symlink && s[i].name@ != seq!['.'] && s[i].name@
                != seq!['.', '.'] implies string_texts(out@).contains(s[i].path@) by {
            vstd::seq_lib::to_multiset_contains(subdir_paths(s), s[i].path@);
            vstd::seq_lib::to_multiset_contains(string_texts(out@), s[i].path@);
        }
    }
    out
}

/// The text of the branch line shown with `--gs`: the branch name, after a
/// branch glyph when icons are on.
pub open spec fn branch_text(branch: Seq<char>, icons_enabled: bool) -> Seq<char> {
    if icons_enabled {
        seq!['\u{e0a0}', ' '] + branch
    } else {
        branch
    }
}

/// The branch line shown with `--gs` (see `branch_text`), painted as a branch.
pub fn branch_line(branch: &str, icons_enabled: bool, theme: &Theme, color_enabled: bool) -> (res: String)
    ensures
        painted(res@, branch_text(branch@, icons_enabled), theme.category_color("git_branch"@), color_enabled),
{
    let mut text = String::new();
    if icons_enabled {
        push_char(&mut text, '\u{e0a0}');
        push_char(&mut text, ' ');
    }
    push_str(&mut text, branch);
    assert(text@ =~= branch_text(branch@, icons_enabled));
    paint(text.as_str(), "git_branch", theme, color_enabled)
}


// ---------------------------------------------------------------------
// Laws
// ---------------------------------------------------------------------

/// Without `-a` or `-A` no hidden entry is shown, and every entry that is
/// not hidden is.
pub proof fn lemma_hidden_need_all(s: Seq<FileEntry>, cli: Cli)
    requires
        !cli.all,
        !cli.almost_all,
    ensures
        forall|i: int| 0 <= i < shown(s, cli).len() ==> !spec_is_hidden(#[trigger] shown(s, cli)[i]),
        forall|e: FileEntry| s.contains(e) && !spec_is_hidden(e) ==> #[trigger] shown(s, cli).contains(e),
    decreases s.len(),
{
    if s.len() > 0 {
        lemma_hidden_need_all(s.drop_last(), cli);
        let r = shown(s.drop_last(), cli);
        assert forall|e: FileEntry| s.contains(e) && !spec_is_hidden(e) implies #[trigger] shown(s, cli).contains(e) by {
            let k = choose|k: int| 0 <= k < s.len() && s[k] == e;
            if k < s.len() - 1 {
                assert(s.drop_last()[k] == e);
                assert(s.drop_last().contains(e));
                assert(r.contains(e));
                let j = choose|j: int| 0 <= j < r.len() && r[j] == e;
                assert(shown(s, cli)[j] == e);
            } else {
                assert(shown(s, cli)[shown(s, cli).len() - 1] == e);
            }
        }
    }
}

/// With `-a` or `-A` every entry is shown, in its order.
pub proof fn lemma_all_shows_everything(s: Seq<FileEntry>, cli: Cli)
    requires
        cli.all || cli.almost_all,
    ensures
        shown(s, cli) == s,
    decreases s.len(),
{
    if s.len() > 0 {
        lemma_all_shows_everything(s.drop_last(), cli);
        assert(s.drop_last().push(s.last()) =~= s);
    }
}

/// `-R` descends into every real subdirectory: each entry that is a
/// directory, not a link, and named neither `.` nor `..` (hidden names
/// included) has its path among the subdirectory paths.
pub proof fn lemma_subdir_paths_complete(s: Seq<FileEntry>)
    ensures
        forall|i: int|
            0 <= i < s.len() && (#[trigger] s[i]).is_dir && !s[i].is_symlink && s[i].name@ != seq!['.'] && s[i].name@
                != seq!['.', '.'] ==> subdir_paths(s).contains(s[i].path@),
    decreases s.len(),
{
    if s.len() > 0 {
        let t = s.drop_last();
        lemma_subdir_paths_complete(t);
        let r = subdir_paths(t);
        assert forall|i: int|
            0 <= i < s.len() && (#[trigger] s[i]).is_dir && !s[i].is_symlink && s[i].name@ != seq!['.'] && s[i].name@
                != seq!['.', '.'] implies subdir_paths(s).contains(s[i].path@) by {
            if i < s.len() - 1 {
                assert(t[i] == s[i]);
                assert(r.contains(s[i].path@));
                let k = choose|k: int| 0 <= k < r.len() && r[k] == s[i].path@;
                assert(subdir_paths(s)[k] == s[i].path@);
            } else {
                assert(subdir_paths(s) == r.push(s[i].path@));
                assert(subdir_paths(s)[r.len() as int] == s[i].path@);
            }
        }
    }
}

} // verus!
