//! Unix path text: joining (as `PathBuf::push` does) and the normal form
//! under which two paths compare equal (as `Path`'s `==` compares them:
//! component by component).

use vstd::prelude::*;
use crate::text::{push_char, string_from_chars, chars_of};

verus! {

/// Index of the first `c` in `s`, or `s.len()` when there is none.
pub open spec fn first_index_of(s: Seq<char>, c: char) -> nat
    decreases s.len(),
{
    if s.len() == 0 {
        0
    } else if s[0] == c {
        0
    } else {
        1 + first_index_of(s.drop_first(), c)
    }
}

/// The pieces of `s` between occurrences of `c` (`str::split` with a char).
pub open spec fn split_on(s: Seq<char>, c: char) -> Seq<Seq<char>>
    decreases s.len(),
{
    let k = first_index_of(s, c);
    if k >= s.len() {
        seq![s]
    } else {
        seq![s.take(k as int)] + split_on(s.skip(k + 1 as int), c)
    }
}

pub proof fn lemma_first_index_of(s: Seq<char>, c: char, n: int)
    requires
        0 <= n <= s.len(),
        forall|i: int| 0 <= i < n ==> s[i] != c,
        n == s.len() || s[n] == c,
    ensures
        first_index_of(s, c) == n,
    decreases n,
{
    if n > 0 {
        lemma_first_index_of(s.drop_first(), c, n - 1);
    }
}

/// One step of `split_on`: the piece before the first `c` at `k`, then the rest.
pub proof fn lemma_split_on_step(s: Seq<char>, c: char, k: int)
    requires
        0 <= k < s.len(),
        s[k] == c,
        forall|i: int| 0 <= i < k ==> s[i] != c,
    ensures
        split_on(s, c) == seq![s.take(k)] + split_on(s.skip(k + 1), c),
{
    lemma_first_index_of(s, c, k);
}

/// `split_on` of text holding no `c`.
pub proof fn lemma_split_on_last(s: Seq<char>, c: char)
    requires
        forall|i: int| 0 <= i < s.len() ==> s[i] != c,
    ensures
        split_on(s, c) == seq![s],
{
    lemma_first_index_of(s, c, s.len() as int);
}

/// `parts` joined with `sep` between neighbours.
pub open spec fn join_with(parts: Seq<Seq<char>>, sep: char) -> Seq<char>
    decreases parts.len(),
{
    if parts.len() == 0 {
        seq![]
    } else if parts.len() == 1 {
        parts[0]
    } else {
        join_with(parts.drop_last(), sep).push(sep) + parts.last()
    }
}

/// The path starts at the root directory.
pub open spec fn is_rooted(s: Seq<char>) -> bool {
    s.len() > 0 && s[0] == '/'
}

/// A relative path that starts with a `.` component keeps it.
pub open spec fn has_cur_dir(s: Seq<char>) -> bool {
    !is_rooted(s) && s.len() > 0 && s[0] == '.' && (s.len() == 1 || s[1] == '/')
}

/// A piece between separators that is a component of its own.
pub open spec fn is_kept_piece(p: Seq<char>) -> bool {
    p.len() > 0 && p != seq!['.']
}

/// The non-root components of a path, in order: a leading `.` when the
/// path starts with one, then every piece that is neither empty nor `.`.
pub open spec fn path_names(s: Seq<char>) -> Seq<Seq<char>> {
    (if has_cur_dir(s) { seq![seq!['.']] } else { seq![] }) + split_on(s, '/').filter(kept_piece())
}

/// `is_kept_piece` as a predicate value.
pub open spec fn kept_piece() -> spec_fn(Seq<char>) -> bool {
    |p: Seq<char>| is_kept_piece(p)
}

/// The normal form of a path: two paths are equal as `Path`s exactly when
/// they have the same root and the same components.
pub open spec fn normalize(s: Seq<char>) -> Seq<char> {
    (if is_rooted(s) { seq!['/'] } else { seq![] }) + join_with(path_names(s), '/')
}

/// `a` joined with `b` as `PathBuf::push` joins them on Unix: a rooted `b`
/// replaces `a`; otherwise a separator goes between unless `a` is empty or
/// already ends with one.
pub open spec fn join_path(a: Seq<char>, b: Seq<char>) -> Seq<char> {
    if is_rooted(b) {
        b
    } else if a.len() > 0 && a.last() != '/' {
        a.push('/') + b
    } else {
        a + b
    }
}

/// The character sequences held by a vector of character vectors.
pub open spec fn char_views(v: Seq<Vec<char>>) -> Seq<Seq<char>> {
    v.map_values(|x: Vec<char>| x@)
}

/// The pieces of `s` between occurrences of `c` (see `split_on`).
pub fn split_chars(s: &Vec<char>, c: char) -> (res: Vec<Vec<char>>)
    ensures
        char_views(res@) == split_on(s@, c),
{
    let mut out: Vec<Vec<char>> = Vec::new();
    let mut cur: Vec<char> = Vec::new();
    let ghost mut start: int = 0;
    let mut i: usize = 0;
    assert(s@.skip(0) == s@);
    while i < s.len()
        invariant
            0 <= start <= i <= s.len(),
            cur@ == s@.subrange(start, i as int),
            forall|k: int| start <= k < i ==> s@[k] != c,
            split_on(s@, c) == char_views(out@) + split_on(s@.skip(start), c),
        decreases s.len() - i,
    {
        let x = s[i];
        if x == c {
            proof {
                let t = s@.skip(start);
                lemma_split_on_step(t, c, i - start);
                assert(t.take(i - start) == cur@);
                assert(t.skip(i - start + 1) == s@.skip(i + 1));
            }
            let ghost before = char_views(out@);
            out.push(cur);
            assert(char_views(out@) =~= before.push(cur@));
            cur = Vec::new();
            proof {
                start = i + 1;
            }
        } else {
            cur.push(x);
        }
        i = i + 1;
    }
    proof {
        let t = s@.skip(start);
        lemma_split_on_last(t, c);
        assert(t =~= cur@);
    }
    let ghost before = char_views(out@);
    out.push(cur);
    assert(char_views(out@) =~= before.push(cur@));
    out
}

/// Whether `p` is exactly `.`.
fn is_dot(p: &Vec<char>) -> (res: bool)
    ensures
        res == (p@ == seq!['.']),
{
    let res = p.len() == 1 && p[0] == '.';
    proof {
        if p@.len() == 1 && p@[0] == '.' {
            assert(p@ =~= seq!['.']);
        }
        if p@ == seq!['.'] {
            assert(p@[0] == '.');
        }
    }
    res
}

/// Whether the path is rooted, and its non-root components (see `path_names`).
pub fn path_components(s: &Vec<char>) -> (res: (bool, Vec<Vec<char>>))
    ensures
        res.0 == is_rooted(s@),
        char_views(res.1@) == path_names(s@),
{
    let rooted = s.len() > 0 && s[0] == '/';
    let cur_dir = !rooted && s.len() > 0 && s[0] == '.' && (s.len() == 1 || s[1] == '/');
    let pieces = split_chars(s, '/');
    let mut out: Vec<Vec<char>> = Vec::new();
    if cur_dir {
        let mut dot: Vec<char> = Vec::new();
        dot.push('.');
        assert(dot@ =~= seq!['.']);
        out.push(dot);
    }
    let ghost lead = char_views(out@);
    assert(lead =~= if has_cur_dir(s@) { seq![seq!['.']] } else { seq![] });
    let ghost ps = char_views(pieces@);
    let mut i: usize = 0;
    while i < pieces.len()
        invariant
            i <= pieces.len(),
            ps == char_views(pieces@),
            ps.len() == pieces.len(),
            char_views(out@) == lead + ps.take(i as int).filter(kept_piece()),
        decreases pieces.len() - i,
    {
        let p = &pieces[i];
        let dot = is_dot(p);
        proof {
            ps.take(i as int).lemma_filter_push(p@, kept_piece());
            assert(ps.take(i + 1) =~= ps.take(i as int).push(p@));
        }
        let ghost before = char_views(out@);
        if p.len() > 0 && !dot {
            let q = p.clone();
            out.push(q);
            assert(char_views(out@) =~= before.push(p@));
        }
        i = i + 1;
    }
    assert(ps.take(ps.len() as int) =~= ps);
    (rooted, out)
}

/// The normal form of a path (see `normalize`).
pub fn normalize_path(path: &str) -> (res: String)
    ensures
        res@ == normalize(path@),
{
    let s = chars_of(path);
    let (rooted, names) = path_components(&s);
    let mut out = String::new();
    if rooted {
        push_char(&mut out, '/');
    }
    let ghost prefix = out@;
    let ghost ns = char_views(names@);
    let mut j: usize = 0;
    while j < names.len()
        invariant
            j <= names.len(),
            ns == char_views(names@),
            ns.len() == names.len(),
            out@ == prefix + join_with(ns.take(j as int), '/'),
        decreases names.len() - j,
    {
        let ghost before = ns.take(j as int);
        if j > 0 {
            push_char(&mut out, '/');
        }
        let p = &names[j];
        let mut q: usize = 0;
        let ghost mid = out@;
        while q < p.len()
            invariant
                q <= p.len(),
                out@ == mid + p@.take(q as int),
            decreases p.len() - q,
        {
            push_char(&mut out, p[q]);
            q = q + 1;
        }
        proof {
            let after = ns.take(j + 1);
            assert(after.drop_last() =~= before);
            assert(after.last() == p@);
            assert(p@.take(p@.len() as int) == p@);
            if j == 0 {
                assert(join_with(after, '/') == p@);
            }
        }
        j = j + 1;
    }
    assert(ns.take(ns.len() as int) == ns);
    out
}

/// `a` joined with `b` (see `join_path`).
pub fn join_paths(a: &str, b: &str) -> (res: String)
    ensures
        res@ == join_path(a@, b@),
{
    let av = chars_of(a);
    let bv = chars_of(b);
    if bv.len() > 0 && bv[0] == '/' {
        return string_from_chars(&bv);
    }
    let mut out = string_from_chars(&av);
    if av.len() > 0 && av[av.len() - 1] != '/' {
        push_char(&mut out, '/');
    }
    let ghost mid = out@;
    let mut i: usize = 0;
    while i < bv.len()
        invariant
            i <= bv.len(),
            out@ == mid + bv@.take(i as int),
        decreases bv.len() - i,
    {
        push_char(&mut out, bv[i]);
        i = i + 1;
    }
    assert(bv@.take(bv@.len() as int) == bv@);
    out
}

} // verus!
