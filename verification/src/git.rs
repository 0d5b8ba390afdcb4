//! Git working-tree status: classification of porcelain status codes and
//! the per-path status table of a repository.

use vstd::prelude::*;
use vstd::utf8::{decode_utf8, encode_utf8, is_char_boundary};
use crate::path::{
    char_views, first_index_of, is_rooted, join_path, join_paths, normalize, normalize_path,
    path_components, path_names, split_chars, split_on,
};
use crate::table::{entry_views, table_get, table_insert, table_map};
use crate::text::{chars_of, opt_view, spec_trim, string_from_chars, trim};

verus! {

broadcast use vstd::string::group_string_axioms;

} // verus!

verus! {

/// The status of one path as reported by `git status --porcelain`.
#[derive(Debug, Clone, Copy, PartialEq, Eq, Structural)]
pub enum GitStatus {
    Staged,
    Modified,
    Untracked,
    Unmerged,
    Ignored,
    Clean,
}

impl GitStatus {
    /// The color category of a status.
    pub open spec fn spec_category(self) -> Seq<char> {
        match self {
            GitStatus::Staged => "git_status_staged"@,
            GitStatus::Modified => "git_status_modified"@,
            GitStatus::Untracked => "git_status_untracked"@,
            GitStatus::Unmerged => "git_status_unmerged"@,
            GitStatus::Ignored => "git_status_ignored"@,
            GitStatus::Clean => "git_status_none"@,
        }
    }

    /// The theme category used to color this status.
    pub fn category(self) -> (res: &'static str)
        ensures
            res@ == self.spec_category(),
    {
        match self {
            GitStatus::Staged => "git_status_staged",
            GitStatus::Modified => "git_status_modified",
            GitStatus::Untracked => "git_status_untracked",
            GitStatus::Unmerged => "git_status_unmerged",
            GitStatus::Ignored => "git_status_ignored",
            GitStatus::Clean => "git_status_none",
        }
    }
}

impl GitStatus {
    /// The one-character marker shown in the status column.
    pub fn glyph(self) -> (res: &'static str)
        ensures
            res@ == match self {
                GitStatus::Staged => "+"@,
                GitStatus::Modified => "!"@,
                GitStatus::Untracked => "?"@,
                GitStatus::Unmerged => "U"@,
                GitStatus::Ignored => "-"@,
                GitStatus::Clean => " "@,
            },
    {
        match self {
            GitStatus::Staged => "+",
            GitStatus::Modified => "!",
            GitStatus::Untracked => "?",
            GitStatus::Unmerged => "U",
            GitStatus::Ignored => "-",
            GitStatus::Clean => " ",
        }
    }
}

/// What `classify` decides for an index/worktree status pair.
pub open spec fn spec_classify(index: char, worktree: char) -> GitStatus {
    if index == '?' && worktree == '?' {
        GitStatus::Untracked
    } else if index == '!' && worktree == '!' {
        GitStatus::Ignored
    } else if index == 'U' || worktree == 'U' {
        GitStatus::Unmerged
    } else if worktree != ' ' && worktree != '?' {
        GitStatus::Modified
    } else if index != ' ' && index != '?' {
        GitStatus::Staged
    } else {
        GitStatus::Clean
    }
}

/// Classify the two status columns of a porcelain line.
pub fn classify(index: char, worktree: char) -> (res: GitStatus)
    ensures
        res == spec_classify(index, worktree),
{
    if index == '?' && worktree == '?' {
        return GitStatus::Untracked;
    }
    if index == '!' && worktree == '!' {
        return GitStatus::Ignored;
    }
    if index == 'U' || worktree == 'U' {
        return GitStatus::Unmerged;
    }
    if worktree != ' ' && worktree != '?' {
        return GitStatus::Modified;
    }
    if index != ' ' && index != '?' {
        return GitStatus::Staged;
    }
    GitStatus::Clean
}


/// A containing directory of a changed path takes the change's status,
/// unless it already has a status other than `Clean`.
pub open spec fn mark_dir(m: Map<Seq<char>, GitStatus>, key: Seq<char>, st: GitStatus) -> Map<Seq<char>, GitStatus> {
    if m.contains_key(key) && m[key] != GitStatus::Clean {
        m
    } else {
        m.insert(key, st)
    }
}

fn table_mark_dir(table: &mut Vec<(String, GitStatus)>, key: String, st: GitStatus)
    ensures
        table_map(entry_views(final(table)@)) == mark_dir(table_map(entry_views(old(table)@)), key@, st),
{
    let current = table_get(table, &key);
    match current {
        Option::Some(s) => {
            if s == GitStatus::Clean {
                table_insert(table, key, st);
            } else {
                assert(table_map(entry_views(table@)) =~= mark_dir(table_map(entry_views(table@)), key@, st));
            }
        },
        Option::None => {
            table_insert(table, key, st);
        },
    }
}

// ---------------------------------------------------------------------
// `git status --porcelain=v1` output
// ---------------------------------------------------------------------

/// A line without the carriage return that ended it.
pub open spec fn strip_cr(p: Seq<char>) -> Seq<char> {
    if p.len() > 0 && p.last() == '\r' {
        p.drop_last()
    } else {
        p
    }
}

/// The lines of `t` as `str::lines` yields them: split at `\n`, a `\r`
/// before the `\n` dropped, and no empty line after a final `\n`.
pub open spec fn text_lines(t: Seq<char>) -> Seq<Seq<char>> {
    let ps = split_on(t, '\n');
    let body = ps.drop_last().map_values(|p: Seq<char>| strip_cr(p));
    if ps.last().len() == 0 {
        body
    } else {
        body.push(ps.last())
    }
}

/// ` -> ` starts at `i` in `s`.
pub open spec fn arrow_at(s: Seq<char>, i: int) -> bool {
    0 <= i && i + 4 <= s.len() && s[i] == ' ' && s[i + 1] == '-' && s[i + 2] == '>' && s[i + 3] == ' '
}

/// Index of the first ` -> ` in `s`, or `s.len()` when there is none.
pub open spec fn first_arrow(s: Seq<char>) -> nat
    decreases s.len(),
{
    if s.len() < 4 {
        s.len()
    } else if arrow_at(s, 0) {
        0
    } else {
        1 + first_arrow(s.drop_first())
    }
}

/// The last piece of `s` split at ` -> ` (a rename's new path).
pub open spec fn last_arrow_piece(s: Seq<char>) -> Seq<char>
    decreases s.len(),
{
    let k = first_arrow(s);
    if k >= s.len() {
        s
    } else {
        proof {
            lemma_first_arrow_found(s);
        }
        last_arrow_piece(s.skip(k + 4 as int))
    }
}

/// `first_arrow` is a position of ` -> ` or the length.
pub proof fn lemma_first_arrow_found(s: Seq<char>)
    ensures
        first_arrow(s) <= s.len(),
        first_arrow(s) < s.len() ==> arrow_at(s, first_arrow(s) as int),
        forall|i: int| 0 <= i < first_arrow(s) ==> !arrow_at(s, i),
    decreases s.len(),
{
    if s.len() >= 4 && !arrow_at(s, 0) {
        lemma_first_arrow_found(s.drop_first());
        assert forall|i: int| 0 <= i < first_arrow(s) implies !arrow_at(s, i) by {
            if i > 0 {
                assert(arrow_at(s, i) == arrow_at(s.drop_first(), i - 1));
            }
        }
        if first_arrow(s) < s.len() {
            assert(arrow_at(s, first_arrow(s) as int) == arrow_at(s.drop_first(), first_arrow(s) - 1));
        }
    } else if s.len() < 4 {
        assert forall|i: int| 0 <= i < first_arrow(s) implies !arrow_at(s, i) by {}
    }
}

proof fn lemma_first_arrow(s: Seq<char>, n: int)
    requires
        0 <= n <= s.len(),
        forall|i: int| 0 <= i < n ==> !arrow_at(s, i),
        n == s.len() || arrow_at(s, n) || n + 4 > s.len(),
        n + 4 > s.len() ==> forall|i: int| n <= i < s.len() ==> !arrow_at(s, i),
    ensures
        first_arrow(s) == (if arrow_at(s, n) { n } else { s.len() as int }),
    decreases n,
{
    if s.len() < 4 {
    } else if n > 0 {
        assert forall|i: int| 0 <= i < n - 1 implies !arrow_at(s.drop_first(), i) by {
            assert(!arrow_at(s, i + 1));
        }
        assert forall|i: int| n - 1 <= i < s.len() - 1 && n - 1 + 4 > s.len() - 1 implies !arrow_at(s.drop_first(), i) by {
            assert(!arrow_at(s, i + 1));
        }
        assert(arrow_at(s, n) == arrow_at(s.drop_first(), n - 1));
        lemma_first_arrow(s.drop_first(), n - 1);
    }
}

/// The bytes of `line` from the fourth on are where a character starts.
pub open spec fn path_starts_on_char(line: Seq<char>) -> bool {
    let b = encode_utf8(line);
    b.len() >= 4 ==> is_char_boundary(b, 3)
}

/// The path that a porcelain line names (after the two status columns and
/// a space, and after ` -> ` for a rename).
pub open spec fn line_path(line: Seq<char>) -> Seq<char> {
    let b = encode_utf8(line);
    last_arrow_piece(decode_utf8(b.subrange(3, b.len() as int)))
}

/// The status that a porcelain line gives its path.
pub open spec fn line_status(line: Seq<char>) -> GitStatus {
    let b = encode_utf8(line);
    spec_classify(b[0] as char, b[1] as char)
}

/// The components of the directory holding `part`, as `Path::parent` and
/// `Path::components` give them (the root as `/`); empty when there is no
/// parent or the parent is empty.
pub open spec fn parent_components(part: Seq<char>) -> Seq<Seq<char>> {
    let names = path_names(part);
    if names.len() == 0 {
        seq![]
    } else {
        (if is_rooted(part) { seq![seq!['/']] } else { seq![] }) + names.drop_last()
    }
}

/// A path built by pushing components one after the other onto an empty path.
pub open spec fn push_all(comps: Seq<Seq<char>>) -> Seq<char>
    decreases comps.len(),
{
    if comps.len() == 0 {
        seq![]
    } else {
        join_path(push_all(comps.drop_last()), comps.last())
    }
}

/// Marks every containing directory of a changed path below `dir`: for each
/// prefix of `comps`, the path `dir` joined with that prefix.
pub open spec fn mark_parents(
    m: Map<Seq<char>, GitStatus>,
    dir: Seq<char>,
    comps: Seq<Seq<char>>,
    st: GitStatus,
) -> Map<Seq<char>, GitStatus>
    decreases comps.len(),
{
    if comps.len() == 0 {
        m
    } else {
        mark_dir(
            mark_parents(m, dir, comps.drop_last(), st),
            normalize(join_path(dir, push_all(comps))),
            st,
        )
    }
}

/// The table after one porcelain line: lines shorter than four bytes are
/// skipped; otherwise the named path gets the line's status and its
/// containing directories are marked.
pub open spec fn apply_line(m: Map<Seq<char>, GitStatus>, dir: Seq<char>, line: Seq<char>) -> Map<Seq<char>, GitStatus> {
    if encode_utf8(line).len() < 4 {
        m
    } else {
        let part = line_path(line);
        let st = line_status(line);
        mark_parents(
            m.insert(normalize(join_path(dir, part)), st),
            dir,
            parent_components(part),
            st,
        )
    }
}

/// The status table that the porcelain output `text` of the repository
/// at `dir` describes.
pub open spec fn porcelain_map(dir: Seq<char>, text: Seq<char>) -> Map<Seq<char>, GitStatus> {
    text_lines(text).fold_left(Map::<Seq<char>, GitStatus>::empty(), line_step(dir))
}

/// `apply_line` for the repository at `dir`, as a step of a fold.
pub open spec fn line_step(dir: Seq<char>) -> spec_fn(Map<Seq<char>, GitStatus>, Seq<char>) -> Map<Seq<char>, GitStatus> {
    |m: Map<Seq<char>, GitStatus>, line: Seq<char>| apply_line(m, dir, line)
}

/// Every line of `text` that is long enough to name a path has a character
/// starting at its fourth byte (git's status columns are ASCII).
pub open spec fn porcelain_well_formed(text: Seq<char>) -> bool {
    forall|i: int| 0 <= i < text_lines(text).len() ==> path_starts_on_char(#[trigger] text_lines(text)[i])
}


proof fn lemma_split_on_nonempty(s: Seq<char>, c: char)
    ensures
        split_on(s, c).len() >= 1,
    decreases s.len(),
{
    let k = first_index_of(s, c);
    if k < s.len() {
        lemma_split_on_nonempty(s.skip(k + 1 as int), c);
    }
}


fn strip_cr_chars(p: &Vec<char>) -> (res: Vec<char>)
    ensures
        res@ == strip_cr(p@),
{
    let mut q = p.clone();
    assert(q@ =~= p@);
    if q.len() > 0 && q[q.len() - 1] == '\r' {
        q.pop();
        assert(q@ =~= p@.drop_last());
    }
    q
}

/// The lines of `text` (see `text_lines`).
fn text_lines_of(text: &str) -> (res: Vec<Vec<char>>)
    ensures
        char_views(res@) == text_lines(text@),
{
    let t = chars_of(text);
    let ps = split_chars(&t, '\n');
    let ghost pv = char_views(ps@);
    proof {
        lemma_split_on_nonempty(t@, '\n');
    }
    let n = ps.len();
    let mut out: Vec<Vec<char>> = Vec::new();
    let mut i: usize = 0;
    while i + 1 < n
        invariant
            n == ps.len(),
            n >= 1,
            pv == char_views(ps@),
            pv.len() == n,
            i + 1 <= n,
            char_views(out@) == pv.drop_last().take(i as int).map_values(|p: Seq<char>| strip_cr(p)),
        decreases n - i,
    {
        let q = strip_cr_chars(&ps[i]);
        let ghost before = char_views(out@);
        out.push(q);
        assert(char_views(out@) =~= before.push(strip_cr(pv[i as int])));
        assert(pv.drop_last()[i as int] == pv[i as int]);
        assert(char_views(out@) =~= pv.drop_last().take(i + 1).map_values(|p: Seq<char>| strip_cr(p)));
        i = i + 1;
    }
    assert(pv.drop_last().take(i as int) =~= pv.drop_last());
    let last = &ps[n - 1];
    if last.len() > 0 {
        let q = last.clone();
        assert(q@ =~= last@);
        let ghost before = char_views(out@);
        out.push(q);
        assert(char_views(out@) =~= before.push(pv.last()));
    }
    out
}

/// The last piece of `s` split at ` -> ` (see `last_arrow_piece`).
fn last_arrow_piece_of(s: &Vec<char>) -> (res: Vec<char>)
    ensures
        res@ == last_arrow_piece(s@),
{
    let mut seg: usize = 0;
    let mut i: usize = 0;
    assert(s@.skip(0) =~= s@);
    while i < s.len()
        invariant
            seg <= i <= s.len(),
            last_arrow_piece(s@) == last_arrow_piece(s@.skip(seg as int)),
            forall|j: int| seg <= j < i ==> !arrow_at(s@, j),
        decreases s.len() - i,
    {
        if s.len() - i >= 4 && s[i] == ' ' && s[i + 1] == '-' && s[i + 2] == '>' && s[i + 3] == ' ' {
            proof {
                let t = s@.skip(seg as int);
                let n = i - seg;
                assert forall|j: int| 0 <= j < n implies !arrow_at(t, j) by {
                    assert(arrow_at(t, j) == arrow_at(s@, j + seg));
                }
                assert(arrow_at(t, n));
                lemma_first_arrow(t, n);
                assert(t.skip(n + 4) =~= s@.skip(i + 4));
            }
            seg = i + 4;
            i = i + 4;
        } else {
            i = i + 1;
        }
    }
    proof {
        let t = s@.skip(seg as int);
        let n = t.len() as int;
        assert forall|j: int| 0 <= j < n implies !arrow_at(t, j) by {
            assert(arrow_at(t, j) == arrow_at(s@, j + seg));
        }
        lemma_first_arrow(t, n);
    }
    let mut out: Vec<char> = Vec::new();
    let mut k: usize = seg;
    while k < s.len()
        invariant
            seg <= k <= s.len(),
            out@ == s@.subrange(seg as int, k as int),
        decreases s.len() - k,
    {
        out.push(s[k]);
        k = k + 1;
    }
    assert(out@ =~= s@.skip(seg as int));
    out
}

/// The directory components above `part` (see `parent_components`).
fn parent_components_of(part: &Vec<char>) -> (res: Vec<Vec<char>>)
    ensures
        char_views(res@) == parent_components(part@),
{
    let (rooted, names) = path_components(part);
    let mut out: Vec<Vec<char>> = Vec::new();
    if names.len() == 0 {
        assert(char_views(out@) =~= parent_components(part@));
        return out;
    }
    if rooted {
        let mut root: Vec<char> = Vec::new();
        root.push('/');
        assert(root@ =~= seq!['/']);
        out.push(root);
    }
    let ghost lead = char_views(out@);
    let ghost nv = char_views(names@);
    let mut i: usize = 0;
    while i + 1 < names.len()
        invariant
            nv == char_views(names@),
            nv.len() == names.len(),
            names.len() >= 1,
            i + 1 <= names.len(),
            char_views(out@) == lead + nv.drop_last().take(i as int),
        decreases names.len() - i,
    {
        let q = names[i].clone();
        assert(q@ =~= names[i as int]@);
        let ghost before = char_views(out@);
        out.push(q);
        assert(char_views(out@) =~= before.push(nv[i as int]));
        assert(nv.drop_last()[i as int] == nv[i as int]);
        assert(char_views(out@) =~= lead + nv.drop_last().take(i + 1));
        i = i + 1;
    }
    assert(nv.drop_last().take(i as int) =~= nv.drop_last());
    out
}

/// Applies one porcelain line to the table (see `apply_line`).
fn apply_porcelain_line(table: &mut Vec<(String, GitStatus)>, dir: &str, line: &Vec<char>)
    requires
        path_starts_on_char(line@),
    ensures
        table_map(entry_views(final(table)@)) == apply_line(table_map(entry_views(old(table)@)), dir@, line@),
{
    let line_s = string_from_chars(line);
    let ls = line_s.as_str();
    let bytes = ls.as_bytes();
    assert(bytes@ == encode_utf8(line@));
    if bytes.len() < 4 {
        return;
    }
    let index = bytes[0] as char;
    let worktree = bytes[1] as char;
    let st = classify(index, worktree);
    let (_head, rest) = ls.split_at(3);
    proof {
        vstd::utf8::encode_utf8_decode_utf8(rest@);
        assert(rest@ == decode_utf8(encode_utf8(line@).subrange(3, bytes@.len() as int)));
    }
    let rest_chars = chars_of(rest);
    let part = last_arrow_piece_of(&rest_chars);
    let part_s = string_from_chars(&part);
    let full = join_paths(dir, part_s.as_str());
    let key = normalize_path(full.as_str());
    let ghost m1 = table_map(entry_views(table@)).insert(key@, st);
    table_insert(table, key, st);
    let comps = parent_components_of(&part);
    let ghost cv = char_views(comps@);
    let mut cur = String::new();
    let mut j: usize = 0;
    while j < comps.len()
        invariant
            j <= comps.len(),
            cv == char_views(comps@),
            cv.len() == comps.len(),
            cur@ == push_all(cv.take(j as int)),
            table_map(entry_views(table@)) == mark_parents(m1, dir@, cv.take(j as int), st),
        decreases comps.len() - j,
    {
        let comp_s = string_from_chars(&comps[j]);
        cur = join_paths(cur.as_str(), comp_s.as_str());
        let full_j = join_paths(dir, cur.as_str());
        let key_j = normalize_path(full_j.as_str());
        proof {
            let after = cv.take(j + 1);
            assert(after.drop_last() =~= cv.take(j as int));
            assert(after.last() == comps[j as int]@);
        }
        table_mark_dir(table, key_j, st);
        j = j + 1;
    }
    assert(cv.take(cv.len() as int) =~= cv);
}

proof fn lemma_mark_parents_keeps(
    m: Map<Seq<char>, GitStatus>,
    dir: Seq<char>,
    comps: Seq<Seq<char>>,
    st: GitStatus,
    k: Seq<char>,
)
    requires
        m.contains_key(k),
        m[k] == st || m[k] != GitStatus::Clean,
    ensures
        mark_parents(m, dir, comps, st).contains_key(k),
        mark_parents(m, dir, comps, st)[k] == st || mark_parents(m, dir, comps, st)[k] == m[k],
        m[k] != GitStatus::Clean ==> mark_parents(m, dir, comps, st)[k] != GitStatus::Clean,
    decreases comps.len(),
{
    if comps.len() > 0 {
        lemma_mark_parents_keeps(m, dir, comps.drop_last(), st, k);
    }
}

proof fn lemma_mark_parents_marks(
    m: Map<Seq<char>, GitStatus>,
    dir: Seq<char>,
    comps: Seq<Seq<char>>,
    st: GitStatus,
    j: int,
)
    requires
        st != GitStatus::Clean,
        1 <= j <= comps.len(),
    ensures
        mark_parents(m, dir, comps, st).contains_key(normalize(join_path(dir, push_all(comps.take(j))))),
        mark_parents(m, dir, comps, st)[normalize(join_path(dir, push_all(comps.take(j))))] != GitStatus::Clean,
    decreases comps.len(),
{
    let key = normalize(join_path(dir, push_all(comps.take(j))));
    if j == comps.len() {
        assert(comps.take(j) =~= comps);
    } else {
        lemma_mark_parents_marks(m, dir, comps.drop_last(), st, j);
        assert(comps.drop_last().take(j) =~= comps.take(j));
        let inner = mark_parents(m, dir, comps.drop_last(), st);
        assert(inner.contains_key(key) && inner[key] != GitStatus::Clean);
    }
}

/// The key of the `j`-th directory containing `part` below `dir` (the
/// first `j` components of its parent, joined onto `dir`).
pub open spec fn parent_key(dir: Seq<char>, part: Seq<char>, j: int) -> Seq<char> {
    normalize(join_path(dir, push_all(parent_components(part).take(j))))
}

/// A porcelain line gives the path it names the line's status, and when
/// that status is not `Clean`, every directory containing the path (below
/// `dir`) ends up with a status other than `Clean` too, so a change shows
/// when its folder is listed.
pub proof fn lemma_line_marks_path_and_parents(m: Map<Seq<char>, GitStatus>, dir: Seq<char>, line: Seq<char>)
    requires
        encode_utf8(line).len() >= 4,
    ensures
        apply_line(m, dir, line).contains_key(normalize(join_path(dir, line_path(line)))),
        apply_line(m, dir, line)[normalize(join_path(dir, line_path(line)))] == line_status(line),
        line_status(line) != GitStatus::Clean ==> forall|j: int|
            1 <= j <= parent_components(line_path(line)).len() ==> apply_line(m, dir, line).contains_key(
                #[trigger] parent_key(dir, line_path(line), j),
            ) && apply_line(m, dir, line)[parent_key(dir, line_path(line), j)] != GitStatus::Clean,
{
    let part = line_path(line);
    let st = line_status(line);
    let key = normalize(join_path(dir, part));
    let m1 = m.insert(key, st);
    let comps = parent_components(part);
    lemma_mark_parents_keeps(m1, dir, comps, st, key);
    if st != GitStatus::Clean {
        assert forall|j: int| 1 <= j <= comps.len() implies mark_parents(m1, dir, comps, st).contains_key(
            #[trigger] parent_key(dir, part, j),
        ) && mark_parents(m1, dir, comps, st)[parent_key(dir, part, j)] != GitStatus::Clean by {
            lemma_mark_parents_marks(m1, dir, comps, st, j);
        }
    }
}

/// The status table that porcelain output describes (see `porcelain_map`).
pub fn parse_porcelain(dir: &str, text: &str) -> (res: Vec<(String, GitStatus)>)
    requires
        porcelain_well_formed(text@),
    ensures
        table_map(entry_views(res@)) == porcelain_map(dir@, text@),
{
    let lines = text_lines_of(text);
    let ghost lv = char_views(lines@);
    let mut table: Vec<(String, GitStatus)> = Vec::new();
    assert(table_map(entry_views(table@)) =~= Map::<Seq<char>, GitStatus>::empty());
    let mut i: usize = 0;
    while i < lines.len()
        invariant
            i <= lines.len(),
            lv == char_views(lines@),
            lv == text_lines(text@),
            porcelain_well_formed(text@),
            table_map(entry_views(table@)) == lv.take(i as int).fold_left(
                Map::<Seq<char>, GitStatus>::empty(),
                line_step(dir@),
            ),
        decreases lines.len() - i,
    {
        assert(path_starts_on_char(lv[i as int]));
        apply_porcelain_line(&mut table, dir, &lines[i]);
        assert(lv.take(i + 1).drop_last() =~= lv.take(i as int));
        i = i + 1;
    }
    assert(lv.take(lv.len() as int) =~= lv);
    table
}


/// Whether every line of porcelain output can be parsed without splitting
/// a character (see `porcelain_well_formed`).
pub fn porcelain_is_well_formed(text: &str) -> (res: bool)
    ensures
        res == porcelain_well_formed(text@),
{
    let lines = text_lines_of(text);
    let ghost lv = char_views(lines@);
    let mut i: usize = 0;
    while i < lines.len()
        invariant
            i <= lines.len(),
            lv == char_views(lines@),
            lv == text_lines(text@),
            forall|j: int| 0 <= j < i ==> path_starts_on_char(#[trigger] lv[j]),
        decreases lines.len() - i,
    {
        let line_s = string_from_chars(&lines[i]);
        let ls = line_s.as_str();
        let bytes = ls.as_bytes();
        if bytes.len() >= 4 && !ls.is_char_boundary(3) {
            assert(!path_starts_on_char(lv[i as int]));
            return false;
        }
        i = i + 1;
    }
    true
}

/// The branch name in the output of `git rev-parse --abbrev-ref HEAD`:
/// the trimmed text, unless it is empty or `HEAD` (a detached head).
pub open spec fn spec_branch_name(output: Seq<char>) -> Option<Seq<char>> {
    let t = spec_trim(output);
    if t.len() == 0 || t == "HEAD"@ {
        Option::None
    } else {
        Option::Some(t)
    }
}

/// The branch name in `git rev-parse --abbrev-ref HEAD` output (see `spec_branch_name`).
pub fn branch_name(output: &str) -> (res: Option<String>)
    ensures
        opt_view(res) == spec_branch_name(output@),
{
    let t = trim(output);
    let ts = t.to_string();
    let head = "HEAD".to_string();
    if t.is_empty() || ts == head {
        Option::None
    } else {
        Option::Some(ts)
    }
}

/// The branch and per-path status of a git working tree.
pub struct GitRepoInfo {
    pub branch: Option<String>,
    /// Normalized path and status; the first entry for a path counts.
    pub status: Vec<(String, GitStatus)>,
}

impl GitRepoInfo {
    /// The status table as a map from normalized path to status.
    pub open spec fn status_map(&self) -> Map<Seq<char>, GitStatus> {
        table_map(entry_views(self.status@))
    }

    /// The status the table gives `path`, `Clean` when it has none.
    pub open spec fn spec_status_for(&self, path: Seq<char>) -> GitStatus {
        let k = normalize(path);
        if self.status_map().contains_key(k) {
            self.status_map()[k]
        } else {
            GitStatus::Clean
        }
    }

    /// The status of `path`; paths equal as `Path`s share one status.
    pub fn status_for(&self, path: &str) -> (res: GitStatus)
        ensures
            res == self.spec_status_for(path@),
    {
        let key = normalize_path(path);
        match table_get(&self.status, &key) {
            Option::Some(st) => st,
            Option::None => GitStatus::Clean,
        }
    }

    /// The repository information for `dir` from what git printed: the
    /// output of `git rev-parse --abbrev-ref HEAD` and of
    /// `git status --porcelain=v1 --ignored`, each `None` when that
    /// command did not succeed.
    pub fn from_git_output(dir: &str, branch_output: Option<&str>, status_output: Option<&str>) -> (res: GitRepoInfo)
        requires
            status_output matches Option::Some(t) ==> porcelain_well_formed(t@),
        ensures
            opt_view(res.branch) == (match branch_output {
                Option::Some(o) => spec_branch_name(o@),
                Option::None => Option::None,
            }),
            res.status_map() == (match status_output {
                Option::Some(t) => porcelain_map(dir@, t@),
                Option::None => Map::<Seq<char>, GitStatus>::empty(),
            }),
    {
        let branch = match branch_output {
            Option::Some(o) => branch_name(o),
            Option::None => Option::None,
        };
        let status = match status_output {
            Option::Some(t) => parse_porcelain(dir, t),
            Option::None => {
                let v: Vec<(String, GitStatus)> = Vec::new();
                assert(table_map(entry_views(v@)) =~= Map::<Seq<char>, GitStatus>::empty());
                v
            },
        };
        GitRepoInfo { branch, status }
    }
}

/// A change staged in the index with a clean worktree column is `Staged`,
/// whatever the change (`A`, `M`, `R`, `C`, `D`, `T`, ...): every index
/// letter other than blank, `?`, `!` and `U`.
pub proof fn lemma_staged_change(index: char)
    requires
        index != ' ',
        index != '?',
        index != '!',
        index != 'U',
    ensures
        spec_classify(index, ' ') == GitStatus::Staged,
{
}

/// A change in the worktree column (anything but blank, `?` and `U`) is
/// `Modified` whatever was staged, unless the index column is `U`.
pub proof fn lemma_worktree_change(index: char, worktree: char)
    requires
        worktree != ' ',
        worktree != '?',
        worktree != 'U',
        worktree != '!' || index != '!',
        index != 'U',
    ensures
        spec_classify(index, worktree) == GitStatus::Modified,
{
}

/// Both columns blank: the path is `Clean`; `??` is `Untracked`, `!!` is
/// `Ignored`, and a `U` in either column is `Unmerged`.
pub proof fn lemma_marker_columns(index: char, worktree: char)
    ensures
        spec_classify(' ', ' ') == GitStatus::Clean,
        spec_classify('?', '?') == GitStatus::Untracked,
        spec_classify('!', '!') == GitStatus::Ignored,
        (index == 'U' || worktree == 'U') && !(index == '?' && worktree == '?') && !(index == '!'
            && worktree == '!') ==> spec_classify(index, worktree) == GitStatus::Unmerged,
{
}

} // verus!
