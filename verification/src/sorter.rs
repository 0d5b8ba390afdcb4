//! The order of a listing: a stable sort by the key the options select,
//! with directories grouped first or last, optionally reversed.

use vstd::prelude::*;
use crate::cli::Cli;
use crate::entry::{spec_extension, FileEntry};
use crate::text::{chars_of, spec_to_lowercase, to_lowercase};

verus! {

/// Three-way comparison of integers: -1, 0 or 1.
pub open spec fn compare_int(a: int, b: int) -> int {
    if a < b {
        -1
    } else if a > b {
        1
    } else {
        0
    }
}

/// Three-way comparison of texts, character by character (by code point),
/// a proper prefix first; this is how `String`'s order compares.
pub open spec fn compare_chars(a: Seq<char>, b: Seq<char>) -> int
    decreases a.len(),
{
    if a.len() == 0 && b.len() == 0 {
        0
    } else if a.len() == 0 {
        -1
    } else if b.len() == 0 {
        1
    } else if (a[0] as u32) < (b[0] as u32) {
        -1
    } else if (a[0] as u32) > (b[0] as u32) {
        1
    } else {
        compare_chars(a.drop_first(), b.drop_first())
    }
}

/// Three-way comparison of optional times; no time comes first.
pub open spec fn compare_time(a: Option<i128>, b: Option<i128>) -> int {
    match (a, b) {
        (Option::None, Option::None) => 0,
        (Option::None, Option::Some(_)) => -1,
        (Option::Some(_), Option::None) => 1,
        (Option::Some(x), Option::Some(y)) => compare_int(x as int, y as int),
    }
}

/// The first comparison, unless it ties.
pub open spec fn then(first: int, second: int) -> int {
    if first != 0 {
        first
    } else {
        second
    }
}

/// What an entry is sorted by.
pub struct Key {
    pub group: int,
    pub time: Option<i128>,
    pub size: int,
    pub ext: Seq<char>,
    pub name: Seq<char>,
}

/// The group of an entry: with `--sd` directories come first, with `--sf`
/// files come first, otherwise all entries are one group.
pub open spec fn spec_group(e: FileEntry, cli: Cli) -> int {
    if cli.group_directories_first {
        if e.is_dir { 0 } else { 1 }
    } else if cli.sort_files_first {
        if e.is_dir { 1 } else { 0 }
    } else {
        0
    }
}

/// The sort key of an entry: lowercased name, lowercased extension (empty
/// when there is none), time, size and group.
pub open spec fn spec_key(e: FileEntry, cli: Cli) -> Key {
    Key {
        group: spec_group(e, cli),
        time: e.modified,
        size: e.size as int,
        ext: match spec_extension(e.path@) {
            Option::Some(x) => x,
            Option::None => seq![],
        },
        name: spec_to_lowercase(e.name@),
    }
}

/// The primary comparison: newest first with `-t`, largest first with
/// `-S`, by extension then name with `-X`, by name otherwise.
pub open spec fn primary_order(a: Key, b: Key, cli: Cli) -> int {
    if cli.sort_time {
        compare_time(b.time, a.time)
    } else if cli.sort_size {
        compare_int(b.size, a.size)
    } else if cli.sort_extension {
        then(compare_chars(a.ext, b.ext), compare_chars(a.name, b.name))
    } else {
        compare_chars(a.name, b.name)
    }
}

/// The order of two keys: by group, then the primary comparison, then the
/// lowercased name.
pub open spec fn key_order(a: Key, b: Key, cli: Cli) -> int {
    then(compare_int(a.group, b.group), then(primary_order(a, b, cli), compare_chars(a.name, b.name)))
}

/// The order of two entries (see `key_order`).
pub open spec fn entry_order(a: FileEntry, b: FileEntry, cli: Cli) -> int {
    key_order(spec_key(a, cli), spec_key(b, cli), cli)
}

/// `r` is `s` stably sorted by `entry_order`, with `p` telling for each
/// position of `r` the position in `s` it came from.
pub open spec fn stable_sorted_by(r: Seq<FileEntry>, s: Seq<FileEntry>, p: Seq<int>, cli: Cli) -> bool {
    &&& r.len() == s.len()
    &&& p.len() == s.len()
    &&& forall|i: int| 0 <= i < p.len() ==> 0 <= #[trigger] p[i] < s.len()
    &&& forall|i: int, j: int| 0 <= i < j < p.len() ==> p[i] != p[j]
    &&& forall|i: int| 0 <= i < r.len() ==> #[trigger] r[i] == s[p[i]]
    &&& forall|i: int, j: int| 0 <= i < j < r.len() ==> entry_order(r[i], r[j], cli) <= 0
    &&& forall|i: int, j: int|
        0 <= i < j < r.len() && entry_order(r[i], r[j], cli) == 0 ==> p[i] < p[j]
}

/// The order a listing ends up in: `s` stably sorted, reversed with `-r`.
pub open spec fn is_listing_order(r: Seq<FileEntry>, s: Seq<FileEntry>, cli: Cli) -> bool {
    exists|p: Seq<int>| #[trigger] stable_sorted_by(unreversed(r, cli), s, p, cli)
}

/// A listing in sorted order: undone the reversal `-r` asks for.
pub open spec fn unreversed(r: Seq<FileEntry>, cli: Cli) -> Seq<FileEntry> {
    if cli.reverse {
        r.reverse()
    } else {
        r
    }
}

// ---------------------------------------------------------------------
// Properties of the comparisons
// ---------------------------------------------------------------------

proof fn lemma_same_head_tail(a: Seq<char>, b: Seq<char>)
    requires
        a.len() > 0,
        b.len() > 0,
        a[0] == b[0],
        a.drop_first() == b.drop_first(),
    ensures
        a == b,
{
    assert(a.len() == a.drop_first().len() + 1);
    assert(b.len() == b.drop_first().len() + 1);
    assert(a.len() == b.len());
    assert forall|i: int| 0 <= i < a.len() implies a[i] == b[i] by {
        if i > 0 {
            assert(a[i] == a.drop_first()[i - 1]);
            assert(b[i] == b.drop_first()[i - 1]);
        }
    }
    assert(a =~= b);
}

pub(crate) proof fn lemma_compare_chars(a: Seq<char>, b: Seq<char>, c: Seq<char>)
    ensures
        compare_chars(a, b) == -compare_chars(b, a),
        -1 <= compare_chars(a, b) <= 1,
        compare_chars(a, b) == 0 <==> a == b,
        compare_chars(a, b) <= 0 && compare_chars(b, c) <= 0 ==> compare_chars(a, c) <= 0,
        compare_chars(a, b) < 0 && compare_chars(b, c) <= 0 ==> compare_chars(a, c) < 0,
        compare_chars(a, b) <= 0 && compare_chars(b, c) < 0 ==> compare_chars(a, c) < 0,
    decreases a.len(),
{
    if a.len() > 0 {
        vstd::utf8::char_u32_cast(a[0], a[0] as u32);
    }
    if b.len() > 0 {
        vstd::utf8::char_u32_cast(b[0], b[0] as u32);
    }
    if c.len() > 0 {
        vstd::utf8::char_u32_cast(c[0], c[0] as u32);
    }
    if a.len() == 0 && b.len() == 0 {
        assert(a =~= b);
    }
    if a.len() > 0 && b.len() > 0 {
        if c.len() > 0 {
            lemma_compare_chars(a.drop_first(), b.drop_first(), c.drop_first());
        } else {
            lemma_compare_chars(a.drop_first(), b.drop_first(), c);
        }
        if a[0] == b[0] && a.drop_first() == b.drop_first() {
            lemma_same_head_tail(a, b);
        }
    }
}

proof fn lemma_key_order(a: Key, b: Key, c: Key, cli: Cli)
    ensures
        key_order(a, b, cli) == -key_order(b, a, cli),
        key_order(a, b, cli) <= 0 && key_order(b, c, cli) <= 0 ==> key_order(a, c, cli) <= 0,
{
    lemma_compare_chars(a.name, b.name, c.name);
    lemma_compare_chars(b.name, a.name, c.name);
    lemma_compare_chars(a.ext, b.ext, c.ext);
    lemma_compare_chars(b.ext, a.ext, c.ext);
    lemma_compare_chars(a.name, c.name, b.name);
    lemma_compare_chars(a.ext, c.ext, b.ext);
}

/// The listing order is a total preorder: swapping two entries flips the
/// comparison, and it is transitive.
pub proof fn lemma_entry_order_preorder(a: FileEntry, b: FileEntry, c: FileEntry, cli: Cli)
    ensures
        entry_order(a, b, cli) == -entry_order(b, a, cli),
        entry_order(a, b, cli) <= 0 && entry_order(b, c, cli) <= 0 ==> entry_order(a, c, cli) <= 0,
{
    lemma_key_order(spec_key(a, cli), spec_key(b, cli), spec_key(c, cli), cli);
}


// ---------------------------------------------------------------------
// What a listing order promises
// ---------------------------------------------------------------------

/// `-r` reverses whatever order is in effect: a listing in reverse order is
/// exactly the reverse of a listing in forward order.
pub proof fn lemma_reverse_flips_order(r: Seq<FileEntry>, s: Seq<FileEntry>, cli: Cli)
    requires
        cli.reverse,
    ensures
        is_listing_order(r, s, cli) == is_listing_order(r.reverse(), s, Cli { reverse: false, ..cli }),
{
    let fwd = Cli { reverse: false, ..cli };
    assert(r.reverse().reverse() =~= r);
    assert forall|p: Seq<int>| stable_sorted_by(r.reverse(), s, p, cli) == stable_sorted_by(r.reverse(), s, p, fwd) by {
        assert forall|a: FileEntry, b: FileEntry| entry_order(a, b, cli) == entry_order(a, b, fwd) by {}
    }
    if is_listing_order(r, s, cli) {
        let p = choose|p: Seq<int>| #[trigger] stable_sorted_by(unreversed(r, cli), s, p, cli);
        assert(stable_sorted_by(unreversed(r.reverse(), fwd), s, p, fwd));
    }
    if is_listing_order(r.reverse(), s, fwd) {
        let p = choose|p: Seq<int>| #[trigger] stable_sorted_by(unreversed(r.reverse(), fwd), s, p, fwd);
        assert(stable_sorted_by(unreversed(r, cli), s, p, cli));
    }
}

/// With `--sd` (and no `-r`) every directory comes before every file.
pub proof fn lemma_directories_first(r: Seq<FileEntry>, s: Seq<FileEntry>, cli: Cli, i: int, j: int)
    requires
        cli.group_directories_first,
        !cli.reverse,
        is_listing_order(r, s, cli),
        0 <= i < j < r.len(),
        r[j].is_dir,
    ensures
        r[i].is_dir,
{
    let p = choose|p: Seq<int>| #[trigger] stable_sorted_by(unreversed(r, cli), s, p, cli);
    assert(entry_order(r[i], r[j], cli) <= 0);
}

/// With `--sf` (and neither `--sd` nor `-r`) every file comes before every directory.
pub proof fn lemma_files_first(r: Seq<FileEntry>, s: Seq<FileEntry>, cli: Cli, i: int, j: int)
    requires
        cli.sort_files_first,
        !cli.group_directories_first,
        !cli.reverse,
        is_listing_order(r, s, cli),
        0 <= i < j < r.len(),
        !r[j].is_dir,
    ensures
        !r[i].is_dir,
{
    let p = choose|p: Seq<int>| #[trigger] stable_sorted_by(unreversed(r, cli), s, p, cli);
    assert(entry_order(r[i], r[j], cli) <= 0);
}

/// With `-S` (no grouping, no `-t`, no `-r`) sizes never grow down the listing.
pub proof fn lemma_size_largest_first(r: Seq<FileEntry>, s: Seq<FileEntry>, cli: Cli, i: int, j: int)
    requires
        cli.sort_size,
        !cli.sort_time,
        !cli.group_directories_first,
        !cli.sort_files_first,
        !cli.reverse,
        is_listing_order(r, s, cli),
        0 <= i < j < r.len(),
    ensures
        r[i].size >= r[j].size,
{
    let p = choose|p: Seq<int>| #[trigger] stable_sorted_by(unreversed(r, cli), s, p, cli);
    assert(entry_order(r[i], r[j], cli) <= 0);
}

/// With `-t` (no grouping, no `-r`) modification times never grow down the
/// listing, and entries without a time come last.
pub proof fn lemma_time_newest_first(r: Seq<FileEntry>, s: Seq<FileEntry>, cli: Cli, i: int, j: int)
    requires
        cli.sort_time,
        !cli.group_directories_first,
        !cli.sort_files_first,
        !cli.reverse,
        is_listing_order(r, s, cli),
        0 <= i < j < r.len(),
    ensures
        compare_time(r[i].modified, r[j].modified) >= 0,
{
    let p = choose|p: Seq<int>| #[trigger] stable_sorted_by(unreversed(r, cli), s, p, cli);
    assert(entry_order(r[i], r[j], cli) <= 0);
}

/// By default (no other key, no grouping, no `-r`) lowercased names never
/// decrease down the listing: names sort case-insensitively.
pub proof fn lemma_names_case_insensitive(r: Seq<FileEntry>, s: Seq<FileEntry>, cli: Cli, i: int, j: int)
    requires
        !cli.sort_time,
        !cli.sort_size,
        !cli.sort_extension,
        !cli.group_directories_first,
        !cli.sort_files_first,
        !cli.reverse,
        is_listing_order(r, s, cli),
        0 <= i < j < r.len(),
    ensures
        compare_chars(spec_to_lowercase(r[i].name@), spec_to_lowercase(r[j].name@)) <= 0,
{
    let p = choose|p: Seq<int>| #[trigger] stable_sorted_by(unreversed(r, cli), s, p, cli);
    assert(entry_order(r[i], r[j], cli) <= 0);
}

/// Positions that are distinct and lie in `0..n`, `n` of them, take every
/// position of `0..n`.
proof fn lemma_positions_cover(p: Seq<int>, n: int, v: int)
    requires
        p.len() == n,
        forall|i: int| 0 <= i < p.len() ==> 0 <= #[trigger] p[i] < n,
        forall|i: int, j: int| 0 <= i < j < p.len() ==> p[i] != p[j],
        0 <= v < n,
    ensures
        p.contains(v),
{
    assert(p.no_duplicates()) by {
        assert forall|i: int, j: int| 0 <= i < p.len() && 0 <= j < p.len() && i != j implies p[i] != p[j] by {
            if i > j {
                assert(p[j] != p[i]);
            }
        }
    }
    p.unique_seq_to_set();
    vstd::set_lib::lemma_int_range(0, n);
    let range = vstd::set_lib::set_int_range(0, n);
    assert(p.to_set().subset_of(range)) by {
        assert forall|x: int| p.to_set().contains(x) implies range.contains(x) by {
            let i = choose|i: int| 0 <= i < p.len() && p[i] == x;
            assert(0 <= p[i] < n);
        }
    }
    vstd::set_lib::lemma_len_subset(p.to_set(), range);
    vstd::set_lib::lemma_subset_equality(p.to_set(), range);
    assert(range.contains(v));
    assert(p.to_set().contains(v));
}

proof fn lemma_positions_agree_from(
    r1: Seq<FileEntry>,
    p1: Seq<int>,
    r2: Seq<FileEntry>,
    p2: Seq<int>,
    s: Seq<FileEntry>,
    cli: Cli,
    k: int,
)
    requires
        stable_sorted_by(r1, s, p1, cli),
        stable_sorted_by(r2, s, p2, cli),
        0 <= k < s.len(),
    ensures
        forall|j: int| 0 <= j <= k ==> p1[j] == p2[j],
    decreases k,
{
    if k > 0 {
        lemma_positions_agree_from(r1, p1, r2, p2, s, cli, k - 1);
    }
    let a = p1[k];
    let b = p2[k];
    if a != b {
        let n = s.len() as int;
        lemma_positions_cover(p1, n, b);
        lemma_positions_cover(p2, n, a);
        let i = choose|i: int| 0 <= i < p1.len() && p1[i] == b;
        let j = choose|j: int| 0 <= j < p2.len() && p2[j] == a;
        if i < k {
            assert(p2[i] == b);
        }
        if j < k {
            assert(p1[j] == a);
        }
        assert(k < i && k < j);
        assert(r1[k] == s[a] && r1[i] == s[b]);
        assert(r2[k] == s[b] && r2[j] == s[a]);
        lemma_entry_order_preorder(s[a], s[b], s[a], cli);
        assert(entry_order(s[a], s[b], cli) <= 0);
        assert(entry_order(s[b], s[a], cli) <= 0);
    }
}

/// A stable sort has one outcome: two stable sortings of the same entries
/// under the same options are the same listing, taken from the same
/// positions.
pub proof fn lemma_stable_sort_unique(
    r1: Seq<FileEntry>,
    p1: Seq<int>,
    r2: Seq<FileEntry>,
    p2: Seq<int>,
    s: Seq<FileEntry>,
    cli: Cli,
)
    requires
        stable_sorted_by(r1, s, p1, cli),
        stable_sorted_by(r2, s, p2, cli),
    ensures
        p1 == p2,
        r1 == r2,
{
    if s.len() > 0 {
        lemma_positions_agree_from(r1, p1, r2, p2, s, cli, s.len() - 1);
    }
    assert(p1 =~= p2);
    assert(r1 =~= r2);
}

/// A listing order has one outcome: two listings of the same entries under
/// the same options are equal.
pub proof fn lemma_listing_order_unique(r1: Seq<FileEntry>, r2: Seq<FileEntry>, s: Seq<FileEntry>, cli: Cli)
    requires
        is_listing_order(r1, s, cli),
        is_listing_order(r2, s, cli),
    ensures
        r1 == r2,
{
    let p1 = choose|p: Seq<int>| #[trigger] stable_sorted_by(unreversed(r1, cli), s, p, cli);
    let p2 = choose|p: Seq<int>| #[trigger] stable_sorted_by(unreversed(r2, cli), s, p, cli);
    lemma_stable_sort_unique(unreversed(r1, cli), p1, unreversed(r2, cli), p2, s, cli);
    if cli.reverse {
        assert(r1.reverse().reverse() =~= r1);
        assert(r2.reverse().reverse() =~= r2);
    }
}

/// The options without `-r`.
pub open spec fn forward(cli: Cli) -> Cli {
    Cli { reverse: false, ..cli }
}

/// The options without `--sd` and `--sf`.
pub open spec fn ungrouped(cli: Cli) -> Cli {
    Cli { group_directories_first: false, sort_files_first: false, ..cli }
}

/// `-r` exactly reverses the listing: the listing under `-r` is the
/// listing without it, backwards (so with `--sd -r` directories come last).
pub proof fn lemma_reverse_is_exact(r: Seq<FileEntry>, f: Seq<FileEntry>, s: Seq<FileEntry>, cli: Cli)
    requires
        cli.reverse,
        is_listing_order(r, s, cli),
        is_listing_order(f, s, forward(cli)),
    ensures
        r == f.reverse(),
{
    lemma_reverse_flips_order(r, s, cli);
    lemma_listing_order_unique(r.reverse(), f, s, forward(cli));
    assert(r.reverse().reverse() =~= r);
}

/// The entries of `u` that are directories (or, with `dirs` false, that
/// are not), in their order.
pub open spec fn select_kind(u: Seq<FileEntry>, dirs: bool) -> Seq<FileEntry>
    decreases u.len(),
{
    if u.len() == 0 {
        seq![]
    } else {
        let rest = select_kind(u.drop_last(), dirs);
        if u.last().is_dir == dirs {
            rest.push(u.last())
        } else {
            rest
        }
    }
}

/// The positions in `u` of the entries `select_kind` keeps.
spec fn select_positions(u: Seq<FileEntry>, dirs: bool) -> Seq<int>
    decreases u.len(),
{
    if u.len() == 0 {
        seq![]
    } else {
        let rest = select_positions(u.drop_last(), dirs);
        if u.last().is_dir == dirs {
            rest.push(u.len() - 1)
        } else {
            rest
        }
    }
}

proof fn lemma_select(u: Seq<FileEntry>, dirs: bool)
    ensures
        select_positions(u, dirs).len() == select_kind(u, dirs).len(),
        select_kind(u, true).len() + select_kind(u, false).len() == u.len(),
        forall|k: int|
            0 <= k < select_positions(u, dirs).len() ==> 0 <= #[trigger] select_positions(u, dirs)[k] < u.len()
                && u[select_positions(u, dirs)[k]] == select_kind(u, dirs)[k] && select_kind(
                u,
                dirs,
            )[k].is_dir == dirs,
        forall|k: int, l: int|
            0 <= k < l < select_positions(u, dirs).len() ==> select_positions(u, dirs)[k] < select_positions(
                u,
                dirs,
            )[l],
    decreases u.len(),
{
    if u.len() > 0 {
        lemma_select(u.drop_last(), dirs);
        lemma_select(u.drop_last(), !dirs);
        let q = select_positions(u.drop_last(), dirs);
        assert forall|k: int| 0 <= k < q.len() implies u[q[k]] == u.drop_last()[q[k]] by {}
    }
}

/// The entries of `u` with directories first (`dirs_first`) or last, each
/// part keeping its order.
pub open spec fn grouped(u: Seq<FileEntry>, dirs_first: bool) -> Seq<FileEntry> {
    select_kind(u, dirs_first) + select_kind(u, !dirs_first)
}

proof fn lemma_grouping_pass(g: Seq<FileEntry>, u: Seq<FileEntry>, s: Seq<FileEntry>, cli: Cli, dirs_first: bool)
    requires
        !cli.reverse,
        dirs_first == cli.group_directories_first,
        cli.group_directories_first || cli.sort_files_first,
        is_listing_order(g, s, cli),
        is_listing_order(u, s, ungrouped(cli)),
    ensures
        g == grouped(u, dirs_first),
{
    let ucli = ungrouped(cli);
    let pu = choose|p: Seq<int>| #[trigger] stable_sorted_by(unreversed(u, ucli), s, p, ucli);
    assert(unreversed(u, ucli) == u);
    let a = select_positions(u, dirs_first);
    let b = select_positions(u, !dirs_first);
    lemma_select(u, dirs_first);
    lemma_select(u, !dirs_first);
    let idx = a + b;
    let w = grouped(u, dirs_first);
    let pw = Seq::new(idx.len(), |k: int| pu[idx[k]]);
    assert(idx.len() == u.len()) by {
        if dirs_first {
        } else {
        }
    }
    assert forall|k: int| 0 <= k < idx.len() implies 0 <= #[trigger] idx[k] < u.len() && w[k] == u[idx[k]] && (
    k < a.len() <==> u[idx[k]].is_dir == dirs_first) by {
        if k < a.len() {
            assert(idx[k] == a[k]);
        } else {
            assert(idx[k] == b[k - a.len()]);
        }
    }
    assert forall|k: int, l: int| 0 <= k < l < idx.len() implies idx[k] != idx[l] && (u[idx[k]].is_dir
        == u[idx[l]].is_dir ==> idx[k] < idx[l]) by {
        if l < a.len() {
            assert(idx[k] == a[k] && idx[l] == a[l]);
        } else if k >= a.len() {
            assert(idx[k] == b[k - a.len()] && idx[l] == b[l - a.len()]);
        }
    }
    assert forall|x: FileEntry, y: FileEntry| x.is_dir == y.is_dir implies entry_order(x, y, cli) == entry_order(
        x,
        y,
        ucli,
    ) by {}
    assert forall|x: FileEntry, y: FileEntry| x.is_dir == dirs_first && y.is_dir != dirs_first implies entry_order(
        x,
        y,
        cli,
    ) < 0 by {}
    assert(stable_sorted_by(w, s, pw, cli)) by {
        assert forall|k: int| 0 <= k < pw.len() implies 0 <= #[trigger] pw[k] < s.len() by {
            assert(0 <= idx[k] < u.len());
        }
        assert forall|k: int, l: int| 0 <= k < l < pw.len() implies pw[k] != pw[l] by {
            assert(idx[k] != idx[l]);
            assert(0 <= idx[k] < u.len() && 0 <= idx[l] < u.len());
            if idx[k] < idx[l] {
                assert(pu[idx[k]] != pu[idx[l]]);
            } else {
                assert(pu[idx[l]] != pu[idx[k]]);
            }
        }
        assert forall|k: int| 0 <= k < w.len() implies #[trigger] w[k] == s[pw[k]] by {
            assert(w[k] == u[idx[k]]);
            assert(0 <= idx[k] < u.len());
        }
        assert forall|k: int, l: int| 0 <= k < l < w.len() implies entry_order(w[k], w[l], cli) <= 0 && (
        entry_order(w[k], w[l], cli) == 0 ==> pw[k] < pw[l]) by {
            assert(w[k] == u[idx[k]] && w[l] == u[idx[l]]);
            assert(0 <= idx[k] < u.len() && 0 <= idx[l] < u.len());
            if u[idx[k]].is_dir == u[idx[l]].is_dir {
                assert(idx[k] < idx[l]);
                assert(entry_order(u[idx[k]], u[idx[l]], ucli) <= 0);
            } else {
                assert(k < a.len());
                assert(!(l < a.len()));
            }
        }
    }
    let pg = choose|p: Seq<int>| #[trigger] stable_sorted_by(unreversed(g, cli), s, p, cli);
    lemma_stable_sort_unique(g, pg, w, pw, s, cli);
}

/// `--sd` is a stable second pass: the listing is the listing without
/// grouping, its directories first and then its files, each part in its
/// order.
pub proof fn lemma_directories_first_pass(g: Seq<FileEntry>, u: Seq<FileEntry>, s: Seq<FileEntry>, cli: Cli)
    requires
        !cli.reverse,
        cli.group_directories_first,
        is_listing_order(g, s, cli),
        is_listing_order(u, s, ungrouped(cli)),
    ensures
        g == select_kind(u, true) + select_kind(u, false),
{
    lemma_grouping_pass(g, u, s, cli, true);
}

/// `--sf` (without `--sd`) is a stable second pass: the listing is the
/// listing without grouping, its files first and then its directories,
/// each part in its order.
pub proof fn lemma_files_first_pass(g: Seq<FileEntry>, u: Seq<FileEntry>, s: Seq<FileEntry>, cli: Cli)
    requires
        !cli.reverse,
        !cli.group_directories_first,
        cli.sort_files_first,
        is_listing_order(g, s, cli),
        is_listing_order(u, s, ungrouped(cli)),
    ensures
        g == select_kind(u, false) + select_kind(u, true),
{
    lemma_grouping_pass(g, u, s, cli, false);
}

// ---------------------------------------------------------------------
// Executable sorting
// ---------------------------------------------------------------------

/// The key of one entry, computed once.
struct SortKey {
    group: u8,
    time: Option<i128>,
    size: u64,
    ext: Vec<char>,
    name: Vec<char>,
}

spec fn key_view(k: SortKey) -> Key {
    Key { group: k.group as int, time: k.time, size: k.size as int, ext: k.ext@, name: k.name@ }
}

spec fn key_views(ks: Seq<SortKey>) -> Seq<Key> {
    ks.map_values(|k: SortKey| key_view(k))
}

pub(crate) fn compare_char_vecs(a: &Vec<char>, b: &Vec<char>) -> (res: i8)
    ensures
        res as int == compare_chars(a@, b@),
{
    let mut i: usize = 0;
    assert(a@.skip(0) =~= a@);
    assert(b@.skip(0) =~= b@);
    loop
        invariant
            i <= a.len(),
            i <= b.len(),
            compare_chars(a@, b@) == compare_chars(a@.skip(i as int), b@.skip(i as int)),
        decreases a.len() - i,
    {
        if i == a.len() && i == b.len() {
            return 0;
        }
        if i == a.len() {
            return -1;
        }
        if i == b.len() {
            return 1;
        }
        let x = a[i] as u32;
        let y = b[i] as u32;
        assert(a@.skip(i as int)[0] == a@[i as int]);
        assert(b@.skip(i as int)[0] == b@[i as int]);
        if x < y {
            return -1;
        }
        if x > y {
            return 1;
        }
        assert(a@.skip(i as int).drop_first() =~= a@.skip(i + 1));
        assert(b@.skip(i as int).drop_first() =~= b@.skip(i + 1));
        i = i + 1;
    }
}

fn compare_u64(a: u64, b: u64) -> (res: i8)
    ensures
        res as int == compare_int(a as int, b as int),
{
    if a < b {
        -1
    } else if a > b {
        1
    } else {
        0
    }
}

fn compare_times(a: Option<i128>, b: Option<i128>) -> (res: i8)
    ensures
        res as int == compare_time(a, b),
{
    match (a, b) {
        (Option::None, Option::None) => 0,
        (Option::None, Option::Some(_)) => -1,
        (Option::Some(_), Option::None) => 1,
        (Option::Some(x), Option::Some(y)) => if x < y {
            -1
        } else if x > y {
            1
        } else {
            0
        },
    }
}

fn order_of(a: &SortKey, b: &SortKey, cli: &Cli) -> (res: i8)
    ensures
        res as int == key_order(key_view(*a), key_view(*b), *cli),
{
    let g = compare_u64(a.group as u64, b.group as u64);
    if g != 0 {
        return g;
    }
    let names = compare_char_vecs(&a.name, &b.name);
    let p = if cli.sort_time {
        compare_times(b.time, a.time)
    } else if cli.sort_size {
        compare_u64(b.size, a.size)
    } else if cli.sort_extension {
        let e = compare_char_vecs(&a.ext, &b.ext);
        if e != 0 {
            e
        } else {
            names
        }
    } else {
        names
    };
    if p != 0 {
        p
    } else {
        names
    }
}

fn sort_key_of(e: &FileEntry, cli: &Cli) -> (res: SortKey)
    ensures
        key_view(res) == spec_key(*e, *cli),
{
    let group: u8 = if cli.group_directories_first {
        if e.is_dir { 0 } else { 1 }
    } else if cli.sort_files_first {
        if e.is_dir { 1 } else { 0 }
    } else {
        0
    };
    let lower = to_lowercase(e.name.as_str());
    let name = chars_of(lower.as_str());
    let ext = match e.extension() {
        Option::Some(x) => chars_of(x.as_str()),
        Option::None => Vec::new(),
    };
    let res = SortKey { group, time: e.modified, size: e.size, ext, name };
    assert(key_view(res).ext =~= spec_key(*e, *cli).ext);
    res
}

/// Positions of `keys` in stably sorted order.
fn sorted_positions(keys: &Vec<SortKey>, cli: &Cli) -> (idx: Vec<usize>)
    ensures
        idx@.len() == keys@.len(),
        forall|k: int| 0 <= k < idx@.len() ==> #[trigger] idx@[k] < keys@.len(),
        forall|k: int, l: int| 0 <= k < l < idx@.len() ==> idx@[k] != idx@[l],
        forall|k: int, l: int|
            0 <= k < l < idx@.len() ==> key_order(
                key_view(keys@[idx@[k] as int]),
                key_view(keys@[idx@[l] as int]),
                *cli,
            ) <= 0,
        forall|k: int, l: int|
            0 <= k < l < idx@.len() && key_order(
                key_view(keys@[idx@[k] as int]),
                key_view(keys@[idx@[l] as int]),
                *cli,
            ) == 0 ==> idx@[k] < idx@[l],
{
    let ghost kv = key_views(keys@);
    let n = keys.len();
    let mut idx: Vec<usize> = Vec::new();
    let mut i: usize = 0;
    while i < n
        invariant
            n == keys@.len(),
            kv == key_views(keys@),
            kv.len() == n,
            i <= n,
            idx@.len() == i,
            forall|k: int| 0 <= k < i ==> #[trigger] idx@[k] < i,
            forall|k: int, l: int| 0 <= k < l < i ==> idx@[k] != idx@[l],
            forall|k: int, l: int|
                0 <= k < l < i ==> key_order(kv[idx@[k] as int], kv[idx@[l] as int], *cli) <= 0,
            forall|k: int, l: int|
                0 <= k < l < i && key_order(kv[idx@[k] as int], kv[idx@[l] as int], *cli) == 0
                    ==> idx@[k] < idx@[l],
        decreases n - i,
    {
        let ghost x = kv[i as int];
        let mut lo: usize = 0;
        let mut hi: usize = i;
        while lo < hi
            invariant
                n == keys@.len(),
                kv == key_views(keys@),
                kv.len() == n,
                i < n,
                x == kv[i as int],
                idx@.len() == i,
                lo <= hi <= i,
                forall|k: int| 0 <= k < i ==> #[trigger] idx@[k] < i,
                forall|k: int, l: int|
                    0 <= k < l < i ==> key_order(kv[idx@[k] as int], kv[idx@[l] as int], *cli) <= 0,
                forall|k: int| 0 <= k < lo ==> key_order(kv[idx@[k] as int], x, *cli) <= 0,
                forall|k: int| hi <= k < i ==> key_order(kv[idx@[k] as int], x, *cli) > 0,
            decreases hi - lo,
        {
            let mid = lo + (hi - lo) / 2;
            let c = order_of(&keys[idx[mid]], &keys[i], cli);
            if c <= 0 {
                proof {
                    assert forall|k: int| 0 <= k < mid + 1 implies key_order(kv[idx@[k] as int], x, *cli) <= 0 by {
                        if k < mid {
                            lemma_key_order(kv[idx@[k] as int], kv[idx@[mid as int] as int], x, *cli);
                        }
                    }
                }
                lo = mid + 1;
            } else {
                proof {
                    assert forall|k: int| mid <= k < i implies key_order(kv[idx@[k] as int], x, *cli) > 0 by {
                        if k > mid {
                            lemma_key_order(kv[idx@[mid as int] as int], kv[idx@[k] as int], x, *cli);
                        }
                    }
                }
                hi = mid;
            }
        }
        let ghost old_idx = idx@;
        idx.insert(lo, i);
        proof {
            assert forall|k: int| 0 <= k < i + 1 implies #[trigger] idx@[k] < i + 1 by {
                if k < lo {
                    assert(idx@[k] == old_idx[k]);
                } else if k > lo {
                    assert(idx@[k] == old_idx[k - 1]);
                }
            }
            assert forall|k: int, l: int| 0 <= k < l < i + 1 implies key_order(
                kv[idx@[k] as int],
                kv[idx@[l] as int],
                *cli,
            ) <= 0 && (key_order(kv[idx@[k] as int], kv[idx@[l] as int], *cli) == 0 ==> idx@[k] < idx@[l])
                && idx@[k] != idx@[l] by {
                let a = if k < lo { k } else if k == lo { -1 } else { k - 1 };
                let b = if l < lo { l } else if l == lo { -1 } else { l - 1 };
                if k == lo {
                    assert(idx@[k] == i);
                    assert(idx@[l] == old_idx[b]);
                    lemma_key_order(x, kv[old_idx[b] as int], x, *cli);
                } else if l == lo {
                    assert(idx@[l] == i);
                    assert(idx@[k] == old_idx[a]);
                } else {
                    assert(idx@[k] == old_idx[a]);
                    assert(idx@[l] == old_idx[b]);
                }
            }
        }
        i = i + 1;
    }
    assert forall|k: int, l: int| 0 <= k < l < idx@.len() implies key_order(
        key_view(keys@[idx@[k] as int]),
        key_view(keys@[idx@[l] as int]),
        *cli,
    ) <= 0 && (key_order(key_view(keys@[idx@[k] as int]), key_view(keys@[idx@[l] as int]), *cli) == 0
        ==> idx@[k] < idx@[l]) by {
        assert(kv[idx@[k] as int] == key_view(keys@[idx@[k] as int]));
        assert(kv[idx@[l] as int] == key_view(keys@[idx@[l] as int]));
    }
    idx
}

/// `entries` rearranged so that position `k` holds what was at `idx[k]`.
fn apply_positions(entries: &mut Vec<FileEntry>, idx: &Vec<usize>)
    requires
        idx@.len() == old(entries)@.len(),
        forall|k: int| 0 <= k < idx@.len() ==> #[trigger] idx@[k] < old(entries)@.len(),
        forall|k: int, l: int| 0 <= k < l < idx@.len() ==> idx@[k] != idx@[l],
    ensures
        final(entries)@.len() == old(entries)@.len(),
        forall|k: int| 0 <= k < idx@.len() ==> #[trigger] final(entries)@[k] == old(entries)@[idx@[k] as int],
{
    let ghost s = entries@;
    let n = entries.len();
    let mut src: Vec<FileEntry> = Vec::new();
    std::mem::swap(entries, &mut src);
    let mut rev: Vec<FileEntry> = Vec::new();
    while src.len() > 0
        invariant
            src@.len() + rev@.len() == n,
            n == s.len(),
            forall|k: int| 0 <= k < src@.len() ==> src@[k] == s[k],
            forall|k: int| 0 <= k < rev@.len() ==> rev@[k] == s[n - 1 - k],
        decreases src@.len(),
    {
        let e = src.pop().unwrap();
        rev.push(e);
    }
    let mut slots: Vec<Option<FileEntry>> = Vec::new();
    while rev.len() > 0
        invariant
            slots@.len() + rev@.len() == n,
            n == s.len(),
            forall|k: int| 0 <= k < rev@.len() ==> rev@[k] == s[n - 1 - k],
            forall|k: int| 0 <= k < slots@.len() ==> slots@[k] == Option::Some(s[k]),
        decreases rev@.len(),
    {
        let e = rev.pop().unwrap();
        slots.push(Option::Some(e));
    }
    let mut out: Vec<FileEntry> = Vec::new();
    let mut k: usize = 0;
    while k < n
        invariant
            n == s.len(),
            n == idx@.len(),
            k <= n,
            slots@.len() == n,
            out@.len() == k,
            forall|j: int| 0 <= j < idx@.len() ==> #[trigger] idx@[j] < n,
            forall|j: int, l: int| 0 <= j < l < idx@.len() ==> idx@[j] != idx@[l],
            forall|j: int| 0 <= j < k ==> #[trigger] out@[j] == s[idx@[j] as int],
            forall|q: int|
                0 <= q < n ==> #[trigger] slots@[q] == (if exists|j: int| 0 <= j < k && idx@[j] == q {
                    Option::None
                } else {
                    Option::Some(s[q])
                }),
        decreases n - k,
    {
        let p = idx[k];
        let mut tmp: Option<FileEntry> = Option::None;
        proof {
            assert(!exists|j: int| 0 <= j < k && idx@[j] == p);
            assert(slots@[p as int] == Option::Some(s[p as int]));
        }
        slots.set_and_swap(p, &mut tmp);
        let e = tmp.unwrap();
        out.push(e);
        proof {
            assert forall|q: int| 0 <= q < n implies #[trigger] slots@[q] == (if exists|j: int|
                0 <= j < k + 1 && idx@[j] == q {
                Option::None
            } else {
                Option::Some(s[q])
            }) by {
                if q == p {
                    assert(idx@[k as int] == q);
                } else {
                    if exists|j: int| 0 <= j < k + 1 && idx@[j] == q {
                        let j = choose|j: int| 0 <= j < k + 1 && idx@[j] == q;
                        assert(j < k);
                    }
                }
            }
        }
        k = k + 1;
    }
    *entries = out;
}

/// `v` in reverse order.
pub(crate) fn reverse_entries(v: &mut Vec<FileEntry>)
    ensures
        final(v)@ == old(v)@.reverse(),
{
    let ghost s = v@;
    let mut out: Vec<FileEntry> = Vec::new();
    while v.len() > 0
        invariant
            v@.len() + out@.len() == s.len(),
            forall|k: int| 0 <= k < v@.len() ==> v@[k] == s[k],
            forall|k: int| 0 <= k < out@.len() ==> out@[k] == s[s.len() - 1 - k],
        decreases v@.len(),
    {
        let e = v.pop().unwrap();
        out.push(e);
    }
    assert(out@ =~= s.reverse());
    *v = out;
}

/// Sort `entries` in place for a listing: stably by the key the options
/// select (newest first with `-t`, largest first with `-S`, by extension
/// with `-X`, by lowercased name otherwise; ties by lowercased name), with
/// directories first (`--sd`) or last (`--sf`), reversed with `-r`.
pub fn sort_entries(entries: &mut Vec<FileEntry>, cli: &Cli)
    ensures
        is_listing_order(final(entries)@, old(entries)@, *cli),
{
    let ghost s = entries@;
    let n = entries.len();
    let mut keys: Vec<SortKey> = Vec::new();
    let mut i: usize = 0;
    while i < n
        invariant
            n == entries@.len(),
            entries@ == s,
            i <= n,
            keys@.len() == i,
            forall|k: int| 0 <= k < i ==> #[trigger] key_view(keys@[k]) == spec_key(s[k], *cli),
        decreases n - i,
    {
        let key = sort_key_of(&entries[i], cli);
        keys.push(key);
        i = i + 1;
    }
    let idx = sorted_positions(&keys, cli);
    apply_positions(entries, &idx);
    let ghost r = entries@;
    let ghost p = idx@.map_values(|x: usize| x as int);
    proof {
        assert forall|a: int, b: int| 0 <= a < b < r.len() implies entry_order(r[a], r[b], *cli) <= 0 && (
        entry_order(r[a], r[b], *cli) == 0 ==> p[a] < p[b]) by {
            assert(r[a] == s[idx@[a] as int]);
            assert(r[b] == s[idx@[b] as int]);
            assert(key_view(keys@[idx@[a] as int]) == spec_key(s[idx@[a] as int], *cli));
            assert(key_view(keys@[idx@[b] as int]) == spec_key(s[idx@[b] as int], *cli));
        }
        assert forall|a: int| 0 <= a < r.len() implies #[trigger] r[a] == s[p[a]] by {
            assert(r[a] == s[idx@[a] as int]);
        }
        assert(stable_sorted_by(r, s, p, *cli));
    }
    if cli.reverse {
        reverse_entries(entries);
        assert(entries@.reverse() =~= r);
    }
    assert(stable_sorted_by(unreversed(entries@, *cli), s, p, *cli));
}

/// Ties of the sort key are ordered by lowercased name: with `-S` entries
/// of equal size, with `-t` entries of equal time, with `-X` entries of
/// equal extension (no grouping, no `-r`) never have lowercased names that
/// decrease down the listing.
pub proof fn lemma_ties_by_name(r: Seq<FileEntry>, s: Seq<FileEntry>, cli: Cli, i: int, j: int)
    requires
        !cli.group_directories_first,
        !cli.sort_files_first,
        !cli.reverse,
        is_listing_order(r, s, cli),
        0 <= i < j < r.len(),
        cli.sort_time ==> r[i].modified == r[j].modified,
        !cli.sort_time && cli.sort_size ==> r[i].size == r[j].size,
        !cli.sort_time && !cli.sort_size && cli.sort_extension ==> spec_extension(r[i].path@) == spec_extension(
            r[j].path@,
        ),
    ensures
        compare_chars(spec_to_lowercase(r[i].name@), spec_to_lowercase(r[j].name@)) <= 0,
{
    let p = choose|p: Seq<int>| #[trigger] stable_sorted_by(unreversed(r, cli), s, p, cli);
    assert(entry_order(r[i], r[j], cli) <= 0);
    let a = spec_key(r[i], cli);
    let b = spec_key(r[j], cli);
    lemma_compare_chars(a.ext, b.ext, a.ext);
    if cli.sort_time {
        match a.time {
            Option::Some(x) => {},
            Option::None => {},
        }
    }
}

} // verus!
