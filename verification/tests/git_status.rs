use colorls::git::{branch_name, classify, porcelain_is_well_formed, GitRepoInfo, GitStatus};

#[test]
fn classify_untracked() {
    assert_eq!(classify('?', '?'), GitStatus::Untracked);
}

#[test]
fn classify_ignored() {
    assert_eq!(classify('!', '!'), GitStatus::Ignored);
}

#[test]
fn classify_unmerged_takes_priority() {
    assert_eq!(classify('U', ' '), GitStatus::Unmerged);
    assert_eq!(classify(' ', 'U'), GitStatus::Unmerged);
}

#[test]
fn classify_worktree_modified() {
    assert_eq!(classify(' ', 'M'), GitStatus::Modified);
}

#[test]
fn classify_index_staged() {
    assert_eq!(classify('M', ' '), GitStatus::Staged);
}

#[test]
fn classify_clean() {
    assert_eq!(classify(' ', ' '), GitStatus::Clean);
}

#[test]
fn classify_worktree_wins_over_index() {
    assert_eq!(classify('M', 'M'), GitStatus::Modified);
    assert_eq!(classify('A', 'D'), GitStatus::Modified);
}

#[test]
fn glyphs_and_categories() {
    assert_eq!(GitStatus::Staged.glyph(), "+");
    assert_eq!(GitStatus::Modified.glyph(), "!");
    assert_eq!(GitStatus::Untracked.glyph(), "?");
    assert_eq!(GitStatus::Unmerged.glyph(), "U");
    assert_eq!(GitStatus::Ignored.glyph(), "-");
    assert_eq!(GitStatus::Clean.glyph(), " ");
    assert_eq!(GitStatus::Staged.category(), "git_status_staged");
    assert_eq!(GitStatus::Clean.category(), "git_status_none");
}

#[test]
fn branch_name_is_trimmed_and_detached_head_has_none() {
    assert_eq!(branch_name("main\n"), Some("main".to_string()));
    assert_eq!(branch_name("  feature/x \r\n"), Some("feature/x".to_string()));
    assert_eq!(branch_name("HEAD\n"), None);
    assert_eq!(branch_name("\n"), None);
}

#[test]
fn porcelain_marks_paths_and_their_parents() {
    let text = " M src/main.rs\n?? new.txt\nR  old.rs -> renamed.rs\n!! target/\nUU docs/guide/intro.md\n";
    assert!(porcelain_is_well_formed(text));
    let info = GitRepoInfo::from_git_output("/repo", Some("main\n"), Some(text));
    assert_eq!(info.branch, Some("main".to_string()));
    assert_eq!(info.status_for("/repo/src/main.rs"), GitStatus::Modified);
    assert_eq!(info.status_for("/repo/src"), GitStatus::Modified);
    assert_eq!(info.status_for("/repo/new.txt"), GitStatus::Untracked);
    assert_eq!(info.status_for("/repo/renamed.rs"), GitStatus::Staged);
    assert_eq!(info.status_for("/repo/old.rs"), GitStatus::Clean);
    assert_eq!(info.status_for("/repo/target"), GitStatus::Ignored);
    assert_eq!(info.status_for("/repo/docs"), GitStatus::Unmerged);
    assert_eq!(info.status_for("/repo/docs/guide"), GitStatus::Unmerged);
    assert_eq!(info.status_for("/repo/docs/guide/intro.md"), GitStatus::Unmerged);
    assert_eq!(info.status_for("/repo/elsewhere"), GitStatus::Clean);
}

#[test]
fn status_lookup_ignores_path_spelling() {
    let info = GitRepoInfo::from_git_output("/repo", None, Some(" M a/b.txt\n"));
    assert_eq!(info.branch, None);
    assert_eq!(info.status_for("/repo/a/./b.txt"), GitStatus::Modified);
    assert_eq!(info.status_for("/repo//a/b.txt"), GitStatus::Modified);
    assert_eq!(info.status_for("/repo/a/"), GitStatus::Modified);
}

#[test]
fn short_lines_are_skipped_and_no_output_means_no_status() {
    let info = GitRepoInfo::from_git_output(".", Some("main"), Some("?? \nM\n"));
    assert_eq!(info.status.len(), 0);
    let none = GitRepoInfo::from_git_output(".", Some("main"), None);
    assert_eq!(none.status.len(), 0);
    assert_eq!(none.status_for("./anything"), GitStatus::Clean);
}

#[test]
fn a_parent_keeps_its_first_status() {
    let info = GitRepoInfo::from_git_output("/r", None, Some("?? d/x\n M d/y\n"));
    assert_eq!(info.status_for("/r/d"), GitStatus::Untracked);
    assert_eq!(info.status_for("/r/d/y"), GitStatus::Modified);
}

#[test]
fn porcelain_that_splits_a_character_is_refused() {
    assert!(!porcelain_is_well_formed("Mx\u{e9}bc\n"));
    assert!(porcelain_is_well_formed(" M \u{e9}t\u{e9}.txt\n"));
}
