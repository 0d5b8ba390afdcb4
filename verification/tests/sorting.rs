use colorls::cli::Cli;
use colorls::entry::FileEntry;
use colorls::sorter::sort_entries;
use std::time::{Duration, SystemTime, UNIX_EPOCH};

fn entry(name: &str, is_dir: bool, size: u64, age_secs: u64) -> FileEntry {
    let when = SystemTime::now() - Duration::from_secs(age_secs);
    let nanos = when.duration_since(UNIX_EPOCH).unwrap().as_nanos() as i128;
    FileEntry {
        path: name.to_string(),
        name: name.to_string(),
        is_dir,
        is_symlink: false,
        symlink_target: None,
        is_broken_symlink: false,
        size,
        modified: Some(nanos),
        readonly: false,
        mode: 0o644,
        uid: 0,
        gid: 0,
    }
}

fn names(entries: &[FileEntry]) -> Vec<String> {
    entries.iter().map(|e| e.name.clone()).collect()
}

#[test]
fn sorts_by_name_case_insensitive_by_default() {
    let mut entries = vec![entry("banana", false, 1, 0), entry("Apple", false, 1, 0)];
    let cli = Cli::default();
    sort_entries(&mut entries, &cli);
    assert_eq!(entries[0].name, "Apple");
    assert_eq!(entries[1].name, "banana");
}

#[test]
fn group_directories_first() {
    let mut entries = vec![entry("a_file", false, 1, 0), entry("z_dir", true, 1, 0)];
    let cli = Cli { group_directories_first: true, ..Cli::default() };
    sort_entries(&mut entries, &cli);
    assert!(entries[0].is_dir);
}

#[test]
fn sort_by_size_largest_first() {
    let mut entries = vec![entry("small", false, 10, 0), entry("large", false, 1000, 0)];
    let cli = Cli { sort_size: true, ..Cli::default() };
    sort_entries(&mut entries, &cli);
    assert_eq!(entries[0].name, "large");
}

#[test]
fn reverse_flips_final_order() {
    let mut entries = vec![entry("a", false, 1, 0), entry("b", false, 1, 0)];
    let cli = Cli { reverse: true, ..Cli::default() };
    sort_entries(&mut entries, &cli);
    assert_eq!(entries[0].name, "b");
    assert_eq!(entries[1].name, "a");
}

#[test]
fn sort_by_time_newest_first() {
    let mut entries = vec![entry("old", false, 1, 5000), entry("new", false, 1, 10), entry("mid", false, 1, 100)];
    let cli = Cli { sort_time: true, ..Cli::default() };
    sort_entries(&mut entries, &cli);
    assert_eq!(names(&entries), vec!["new", "mid", "old"]);
}

#[test]
fn sort_by_extension_then_name() {
    let mut entries = vec![
        entry("b.txt", false, 1, 0),
        entry("a.rs", false, 1, 0),
        entry("C.TXT", false, 1, 0),
        entry("noext", false, 1, 0),
    ];
    let cli = Cli { sort_extension: true, ..Cli::default() };
    sort_entries(&mut entries, &cli);
    assert_eq!(names(&entries), vec!["noext", "a.rs", "b.txt", "C.TXT"]);
}

#[test]
fn files_first_keeps_name_order_within_groups() {
    let mut entries = vec![
        entry("d2", true, 1, 0),
        entry("f2", false, 1, 0),
        entry("d1", true, 1, 0),
        entry("f1", false, 1, 0),
    ];
    let cli = Cli { sort_files_first: true, ..Cli::default() };
    sort_entries(&mut entries, &cli);
    assert_eq!(names(&entries), vec!["f1", "f2", "d1", "d2"]);
}

#[test]
fn equal_keys_keep_their_order() {
    let mut entries = vec![entry("x", false, 7, 0), entry("y", false, 7, 0), entry("z", false, 9, 0)];
    let cli = Cli { sort_size: true, reverse: true, ..Cli::default() };
    sort_entries(&mut entries, &cli);
    assert_eq!(names(&entries), vec!["y", "x", "z"]);
}

#[test]
fn directories_first_with_reverse_puts_them_last() {
    let mut entries = vec![entry("a", true, 1, 0), entry("b", false, 1, 0), entry("c", true, 1, 0)];
    let cli = Cli { group_directories_first: true, reverse: true, ..Cli::default() };
    sort_entries(&mut entries, &cli);
    assert_eq!(names(&entries), vec!["b", "c", "a"]);
}

#[test]
fn empty_listing_stays_empty() {
    let mut entries: Vec<FileEntry> = Vec::new();
    sort_entries(&mut entries, &Cli::default());
    assert!(entries.is_empty());
}

#[test]
fn grouping_is_a_stable_pass_over_the_plain_order() {
    let make = || {
        vec![
            entry("b", true, 5, 0),
            entry("a", false, 9, 0),
            entry("c", false, 1, 0),
            entry("d", true, 7, 0),
        ]
    };
    let mut plain = make();
    sort_entries(&mut plain, &Cli { sort_size: true, ..Cli::default() });
    let mut grouped = make();
    sort_entries(&mut grouped, &Cli { sort_size: true, group_directories_first: true, ..Cli::default() });
    let dirs: Vec<String> = plain.iter().filter(|e| e.is_dir).map(|e| e.name.clone()).collect();
    let files: Vec<String> = plain.iter().filter(|e| !e.is_dir).map(|e| e.name.clone()).collect();
    assert_eq!(names(&grouped), [dirs.clone(), files.clone()].concat());
    let mut files_first = make();
    sort_entries(&mut files_first, &Cli { sort_size: true, sort_files_first: true, ..Cli::default() });
    assert_eq!(names(&files_first), [files, dirs].concat());
}

#[test]
fn reverse_is_the_forward_listing_backwards() {
    let make = || vec![entry("b", true, 5, 0), entry("a", false, 9, 0), entry("C", false, 1, 0), entry("d", true, 7, 0)];
    let mut fwd = make();
    sort_entries(&mut fwd, &Cli { group_directories_first: true, ..Cli::default() });
    let mut back = make();
    sort_entries(&mut back, &Cli { group_directories_first: true, reverse: true, ..Cli::default() });
    let mut expected = names(&fwd);
    expected.reverse();
    assert_eq!(names(&back), expected);
    assert!(!back[0].is_dir);
}
