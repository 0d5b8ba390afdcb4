//! Which glyph and which color category an entry gets.

use vstd::prelude::*;
use crate::entry::{spec_extension, FileEntry};
use crate::table::{table_get, text_table_get};
use crate::text::{spec_to_lowercase, to_lowercase};
use crate::theme::{Color, Theme};

verus! {

broadcast use vstd::string::group_string_axioms;

/// Glyph for a file without a more specific icon.
pub const DEFAULT_FILE_ICON: &'static str = "\u{f15b}";

/// Glyph for a folder without a more specific icon.
pub const DEFAULT_FOLDER_ICON: &'static str = "\u{f07b}";

/// Glyph for a symbolic link.
pub const SYMLINK_ICON: &'static str = "\u{f481}";

/// The glyph for an entry: a broken link's glyph; for a directory, the icon
/// of its (lowercased) folder name or the folder glyph; otherwise the icon of
/// its lowercased file name, then of its extension, then the link glyph for
/// a link, then the file glyph.
pub open spec fn spec_icon_for(e: FileEntry, theme: Theme) -> Seq<char> {
    let lname = spec_to_lowercase(e.name@);
    if e.is_broken_symlink {
        SYMLINK_ICON@
    } else if e.is_dir {
        if theme.folder_icons().contains_key(lname) {
            theme.folder_icons()[lname]
        } else {
            DEFAULT_FOLDER_ICON@
        }
    } else if theme.filename_icons().contains_key(lname) {
        theme.filename_icons()[lname]
    } else if spec_extension(e.path@) is Some && theme.ext_icons().contains_key(spec_extension(e.path@)->0) {
        theme.ext_icons()[spec_extension(e.path@)->0]
    } else if e.is_symlink {
        SYMLINK_ICON@
    } else {
        DEFAULT_FILE_ICON@
    }
}

/// Resolve the glyph to render for `entry` (see `spec_icon_for`).
pub fn icon_for(entry: &FileEntry, theme: &Theme) -> (res: String)
    ensures
        res@ == spec_icon_for(*entry, *theme),
{
    if entry.is_broken_symlink {
        return SYMLINK_ICON.to_string();
    }
    let lname = to_lowercase(entry.name.as_str());
    if entry.is_dir {
        return match text_table_get(&theme.icons_by_folder, &lname) {
            Option::Some(icon) => icon,
            Option::None => DEFAULT_FOLDER_ICON.to_string(),
        };
    }
    if let Option::Some(icon) = text_table_get(&theme.icons_by_filename, &lname) {
        return icon;
    }
    let ext = entry.extension();
    if let Option::Some(e) = ext {
        if let Option::Some(icon) = text_table_get(&theme.icons_by_ext, &e) {
            return icon;
        }
    }
    if entry.is_symlink {
        return SYMLINK_ICON.to_string();
    }
    DEFAULT_FILE_ICON.to_string()
}

/// The coarse color category of an entry: a dead link, a link, a
/// directory, an executable file, or a recognized file.
pub open spec fn spec_category_for(e: FileEntry) -> Seq<char> {
    if e.is_broken_symlink {
        "dead_link"@
    } else if e.is_symlink {
        "symlink"@
    } else if e.is_dir {
        "dir"@
    } else if e.mode & 0o111u32 != 0 {
        "executable_file"@
    } else {
        "recognized_file"@
    }
}

/// Resolve the coarse color category (a key into the theme's colors).
pub fn category_for(entry: &FileEntry) -> (res: &'static str)
    ensures
        res@ == spec_category_for(*entry),
{
    if entry.is_broken_symlink {
        return "dead_link";
    }
    if entry.is_symlink {
        return "symlink";
    }
    if entry.is_dir {
        return "dir";
    }
    if entry.is_executable() {
        return "executable_file";
    }
    "recognized_file"
}

/// The finer color category of an entry: for a plain file whose extension
/// is aliased, the category of the alias; otherwise the coarse category
/// (see `spec_category_for`).
pub open spec fn spec_resolved_category(e: FileEntry, theme: Theme) -> Seq<char> {
    if !e.is_dir && !e.is_symlink && spec_extension(e.path@) is Some && theme.alias_map().contains_key(
        spec_extension(e.path@)->0,
    ) {
        theme.alias_map()[spec_extension(e.path@)->0]
    } else {
        spec_category_for(e)
    }
}

/// Resolve the finer color category (see `spec_resolved_category`).
pub fn resolved_category(entry: &FileEntry, theme: &Theme) -> (res: String)
    ensures
        res@ == spec_resolved_category(*entry, *theme),
{
    if !entry.is_dir && !entry.is_symlink {
        if let Option::Some(ext) = entry.extension() {
            if let Option::Some(cat) = text_table_get(&theme.aliases, &ext) {
                return cat;
            }
        }
    }
    category_for(entry).to_string()
}


/// The color of a plain file's extension in the theme's extension colors,
/// which take priority over its category's color; `None` for directories,
/// links and extensions without one.
pub open spec fn spec_entry_color(e: FileEntry, theme: Theme) -> Option<Color> {
    if !e.is_dir && !e.is_symlink && spec_extension(e.path@) is Some && theme.ext_color_map().contains_key(
        spec_extension(e.path@)->0,
    ) {
        Option::Some(theme.ext_color_map()[spec_extension(e.path@)->0])
    } else {
        Option::None
    }
}

/// The extension color of an entry (see `spec_entry_color`).
pub fn entry_color(entry: &FileEntry, theme: &Theme) -> (res: Option<Color>)
    ensures
        res == spec_entry_color(*entry, *theme),
{
    if entry.is_dir || entry.is_symlink {
        return Option::None;
    }
    match entry.extension() {
        Option::Some(ext) => table_get(&theme.extension_colors, &ext),
        Option::None => Option::None,
    }
}

/// A real directory (not a link) is colored as a directory, whatever its
/// mode bits; a plain file is an executable file exactly when some execute
/// bit is set, a recognized file otherwise.
pub proof fn lemma_coarse_categories(e: FileEntry)
    ensures
        e.is_dir && !e.is_symlink && !e.is_broken_symlink ==> spec_category_for(e) == "dir"@,
        !e.is_dir && !e.is_symlink && !e.is_broken_symlink && (e.mode & 0o100u32 != 0 || e.mode & 0o010u32
            != 0 || e.mode & 0o001u32 != 0) ==> spec_category_for(e) == "executable_file"@,
        !e.is_dir && !e.is_symlink && !e.is_broken_symlink && e.mode & 0o100u32 == 0 && e.mode & 0o010u32 == 0
            && e.mode & 0o001u32 == 0 ==> spec_category_for(e) == "recognized_file"@,
{
    let m = e.mode;
    assert((m & 0o111u32 != 0) <==> (m & 0o100u32 != 0 || m & 0o010u32 != 0 || m & 0o001u32 != 0)) by (bit_vector);
}

} // verus!
