//! One listed file system entry, as read from the file system.

use vstd::prelude::*;
use crate::path::{char_views, path_components, path_names};
use crate::text::{spec_to_lowercase, string_from_chars, to_lowercase};

verus! {

broadcast use vstd::string::group_string_axioms;

/// One entry of a listing. Symbolic links are described by themselves
/// (`is_symlink`, `symlink_target`); `is_dir` and `size` follow the link.
/// `modified` is the modification time in nanoseconds relative to the Unix
/// epoch; `mode`, `uid` and `gid` are the Unix permission bits and owners.
#[derive(Debug, Clone)]
pub struct FileEntry {
    pub path: String,
    pub name: String,
    pub is_dir: bool,
    pub is_symlink: bool,
    pub symlink_target: Option<String>,
    pub is_broken_symlink: bool,
    pub size: u64,
    pub modified: Option<i128>,
    pub readonly: bool,
    pub mode: u32,
    pub uid: u32,
    pub gid: u32,
}

/// The final component of a path, when it is a name (not the root, `.`
/// or `..`), as `Path::file_name` gives it.
pub open spec fn spec_file_name(path: Seq<char>) -> Option<Seq<char>> {
    let names = path_names(path);
    if names.len() == 0 || names.last() == seq!['.'] || names.last() == seq!['.', '.'] {
        Option::None
    } else {
        Option::Some(names.last())
    }
}

/// Index of the last `.` in `s`, if any.
pub open spec fn last_dot(s: Seq<char>) -> Option<int>
    decreases s.len(),
{
    if s.len() == 0 {
        Option::None
    } else if s.last() == '.' {
        Option::Some(s.len() - 1)
    } else {
        last_dot(s.drop_last())
    }
}

/// The extension of a path as `Path::extension` gives it: the text after
/// the last `.` of the file name, unless that `.` starts the name.
pub open spec fn spec_path_extension(path: Seq<char>) -> Option<Seq<char>> {
    match spec_file_name(path) {
        Option::Some(f) => match last_dot(f) {
            Option::Some(k) => if k == 0 {
                Option::None
            } else {
                Option::Some(f.skip(k + 1))
            },
            Option::None => Option::None,
        },
        Option::None => Option::None,
    }
}

/// The lowercased extension of a path.
pub open spec fn spec_extension(path: Seq<char>) -> Option<Seq<char>> {
    match spec_path_extension(path) {
        Option::Some(e) => Option::Some(spec_to_lowercase(e)),
        Option::None => Option::None,
    }
}

/// Extension of the file name `f` (see `spec_path_extension`).
fn name_extension(f: &Vec<char>) -> (res: Option<Vec<char>>)
    ensures
        match res {
            Option::Some(e) => match last_dot(f@) {
                Option::Some(k) => k != 0 && e@ == f@.skip(k + 1),
                Option::None => false,
            },
            Option::None => match last_dot(f@) {
                Option::Some(k) => k == 0,
                Option::None => true,
            },
        },
{
    let mut i: usize = f.len();
    assert(f@.take(i as int) =~= f@);
    while i > 0
        invariant
            i <= f.len(),
            last_dot(f@) == last_dot(f@.take(i as int)),
        decreases i,
    {
        if f[i - 1] == '.' {
            assert(f@.take(i as int).last() == '.');
            if i - 1 == 0 {
                return Option::None;
            }
            let mut e: Vec<char> = Vec::new();
            let mut j: usize = i;
            while j < f.len()
                invariant
                    i <= j <= f.len(),
                    e@ == f@.subrange(i as int, j as int),
                decreases f.len() - j,
            {
                e.push(f[j]);
                j = j + 1;
            }
            assert(e@ =~= f@.skip(i as int));
            return Option::Some(e);
        }
        assert(f@.take(i as int).drop_last() =~= f@.take(i - 1));
        i = i - 1;
    }
    assert(f@.take(f@.len() as int) =~= f@);
    Option::None
}

/// The extension of `path` as `Path::extension` gives it.
fn path_extension(path: &str) -> (res: Option<String>)
    ensures
        opt_chars(res) == spec_path_extension(path@),
{
    let s = crate::text::chars_of(path);
    let (_rooted, names) = path_components(&s);
    let ghost nv = char_views(names@);
    if names.len() == 0 {
        return Option::None;
    }
    let last = &names[names.len() - 1];
    assert(last@ == nv.last());
    let is_dot = last.len() == 1 && last[0] == '.';
    let is_dotdot = last.len() == 2 && last[0] == '.' && last[1] == '.';
    proof {
        if last@ == seq!['.'] {
            assert(last@[0] == '.');
        }
        if last@ == seq!['.', '.'] {
            assert(last@[0] == '.' && last@[1] == '.');
        }
        if is_dot {
            assert(last@ =~= seq!['.']);
        }
        if is_dotdot {
            assert(last@ =~= seq!['.', '.']);
        }
    }
    if is_dot || is_dotdot {
        return Option::None;
    }
    match name_extension(last) {
        Option::Some(e) => Option::Some(string_from_chars(&e)),
        Option::None => Option::None,
    }
}

/// The name a listing shows for a path: its final component, or the whole
/// path when it has none (the root, `.` or `..`).
pub open spec fn spec_entry_name(path: Seq<char>) -> Seq<char> {
    match spec_file_name(path) {
        Option::Some(n) => n,
        Option::None => path,
    }
}

/// The name a listing shows for a path (see `spec_entry_name`).
pub fn entry_name(path: &str) -> (res: String)
    ensures
        res@ == spec_entry_name(path@),
{
    let s = crate::text::chars_of(path);
    let (_rooted, names) = path_components(&s);
    let ghost nv = char_views(names@);
    if names.len() == 0 {
        return path.to_string();
    }
    let last = &names[names.len() - 1];
    assert(last@ == nv.last());
    let is_dot = last.len() == 1 && last[0] == '.';
    let is_dotdot = last.len() == 2 && last[0] == '.' && last[1] == '.';
    proof {
        if last@ == seq!['.'] {
            assert(last@[0] == '.');
        }
        if last@ == seq!['.', '.'] {
            assert(last@[0] == '.' && last@[1] == '.');
        }
        if is_dot {
            assert(last@ =~= seq!['.']);
        }
        if is_dotdot {
            assert(last@ =~= seq!['.', '.']);
        }
    }
    if is_dot || is_dotdot {
        return path.to_string();
    }
    string_from_chars(last)
}

/// The characters of an optional string.
pub open spec fn opt_chars(o: Option<String>) -> Option<Seq<char>> {
    crate::text::opt_view(o)
}

impl FileEntry {
    /// The extension of the entry's path, lowercased.
    pub fn extension(&self) -> (res: Option<String>)
        ensures
            opt_chars(res) == spec_extension(self.path@),
    {
        match path_extension(self.path.as_str()) {
            Option::Some(e) => Option::Some(to_lowercase(e.as_str())),
            Option::None => Option::None,
        }
    }

    /// Dotfiles are hidden.
    pub fn is_hidden(&self) -> (res: bool)
        ensures
            res == (self.name@.len() > 0 && self.name@[0] == '.'),
    {
        let s = self.name.as_str();
        s.unicode_len() > 0 && s.get_char(0) == '.'
    }

    /// Some execute permission bit (owner, group or other) is set.
    pub fn is_executable(&self) -> (res: bool)
        ensures
            res == (self.mode & 0o111u32 != 0),
    {
        self.mode & 0o111 != 0
    }
}

} // verus!
