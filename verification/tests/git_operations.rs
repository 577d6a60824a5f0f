use supergit::git_operations::{
    add_files, get_changes, nothing_selected, nothing_staged, nothing_to_stage, Change, IndexAction,
    StatusEntry, INDEX_DELETED, INDEX_MODIFIED, INDEX_NEW, WT_DELETED, WT_MODIFIED, WT_NEW,
};
use supergit::ignore::insert_files;
use supergit::revert::{parse_log, parse_log_line, Commit};

fn change(path: &str, status: u32) -> Change {
    Change { path: path.to_string(), status }
}

fn entry(path: Option<&str>, status: u32) -> StatusEntry {
    StatusEntry { path: path.map(|p| p.to_string()), status }
}

fn commit(hash: &str, message: &str) -> Commit {
    Commit { hash: hash.to_string(), message: message.to_string() }
}

#[test]
fn status_bits_are_those_of_git() {
    assert_eq!(INDEX_NEW, git2::Status::INDEX_NEW.bits());
    assert_eq!(INDEX_MODIFIED, git2::Status::INDEX_MODIFIED.bits());
    assert_eq!(INDEX_DELETED, git2::Status::INDEX_DELETED.bits());
    assert_eq!(WT_NEW, git2::Status::WT_NEW.bits());
    assert_eq!(WT_MODIFIED, git2::Status::WT_MODIFIED.bits());
    assert_eq!(WT_DELETED, git2::Status::WT_DELETED.bits());
}

#[test]
fn change_is_described_by_state_and_path() {
    assert_eq!(change("a.txt", WT_NEW).describe(), "new: a.txt");
    assert_eq!(change("b.txt", WT_MODIFIED).describe(), "modified: b.txt");
    assert_eq!(change("c.txt", WT_DELETED).describe(), "deleted: c.txt");
    assert_eq!(change("d.txt", INDEX_NEW).describe(), "?: d.txt");
    assert_eq!(change("e.txt", 0).describe(), "?: e.txt");
}

#[test]
fn new_goes_before_modified_and_deleted() {
    assert_eq!(change("a", WT_NEW | WT_MODIFIED).describe(), "new: a");
    assert_eq!(change("a", WT_MODIFIED | WT_DELETED).describe(), "modified: a");
    assert_eq!(change("a", WT_DELETED | INDEX_NEW).describe(), "deleted: a");
}

#[test]
fn changes_are_sorted_into_worktree_and_index() {
    let entries = vec![
        entry(Some("new.txt"), WT_NEW),
        entry(Some("staged.txt"), INDEX_MODIFIED),
        entry(Some("both.txt"), INDEX_NEW | WT_MODIFIED),
        entry(None, WT_NEW | INDEX_NEW),
        entry(Some("ignored.txt"), 1 << 14),
        entry(Some("gone.txt"), WT_DELETED),
        entry(Some("unstaged.txt"), INDEX_DELETED),
    ];
    let (untracked, staged) = get_changes(&entries);
    assert_eq!(
        untracked,
        vec![
            change("new.txt", WT_NEW),
            change("both.txt", INDEX_NEW | WT_MODIFIED),
            change("gone.txt", WT_DELETED)
        ]
    );
    assert_eq!(
        staged,
        vec![
            change("staged.txt", INDEX_MODIFIED),
            change("both.txt", INDEX_NEW | WT_MODIFIED),
            change("unstaged.txt", INDEX_DELETED)
        ]
    );
}

#[test]
fn no_entries_give_no_changes() {
    let (untracked, staged) = get_changes(&vec![]);
    assert!(untracked.is_empty());
    assert!(staged.is_empty());
}

#[test]
fn deleted_files_are_removed_others_added() {
    let chosen = vec![
        change("gone.txt", WT_DELETED),
        change("new.txt", WT_NEW),
        change("half.txt", WT_DELETED | INDEX_MODIFIED),
        change("mod.txt", WT_MODIFIED),
    ];
    assert_eq!(
        add_files(&chosen),
        vec![
            IndexAction::Remove("gone.txt".to_string()),
            IndexAction::Add("new.txt".to_string()),
            IndexAction::Add("half.txt".to_string()),
            IndexAction::Add("mod.txt".to_string()),
        ]
    );
    assert!(add_files(&vec![]).is_empty());
}

#[test]
fn notices_are_given_for_empty_lists_only() {
    let some = vec![change("a", WT_NEW)];
    assert_eq!(nothing_to_stage(&vec![]), Some("No untracked or modified files found."));
    assert_eq!(nothing_to_stage(&some), None);
    assert_eq!(nothing_selected(&vec![]), Some("No files selected."));
    assert_eq!(nothing_selected(&some), None);
    assert_eq!(nothing_staged(&vec![]), Some("No staged files found."));
    assert_eq!(nothing_staged(&some), None);
}

#[test]
fn nothing_selected_appends_nothing() {
    assert_eq!(insert_files(&vec![]), None);
}

#[test]
fn block_has_empty_line_comment_and_paths() {
    let files = vec!["A".to_string(), "B/C".to_string()];
    assert_eq!(insert_files(&files), Some("\n# SuperGit\nA\nB/C\n".to_string()));
    assert_eq!(insert_files(&vec!["x".to_string()]), Some("\n# SuperGit\nx\n".to_string()));
}

#[test]
fn log_line_holds_hash_and_message() {
    assert_eq!(parse_log_line("abc123\0fix the bug"), Some(commit("abc123", "fix the bug")));
    assert_eq!(parse_log_line("abc\0"), Some(commit("abc", "")));
    assert_eq!(parse_log_line("\0msg"), Some(commit("", "msg")));
    assert_eq!(parse_log_line("h\0m\0rest"), Some(commit("h", "m")));
}

#[test]
fn log_line_without_separator_holds_nothing() {
    assert_eq!(parse_log_line("abc123 fix the bug"), None);
    assert_eq!(parse_log_line(""), None);
}

#[test]
fn log_is_read_line_by_line() {
    assert_eq!(
        parse_log("h1\0first\nh2\0second\n"),
        Some(vec![commit("h1", "first"), commit("h2", "second")])
    );
    assert_eq!(parse_log(""), Some(vec![]));
    assert_eq!(parse_log("h1\0first\nbroken\nh3\0third"), None);
}

#[test]
fn commit_is_listed_by_its_message() {
    assert_eq!(commit("h", "the message").label(), "the message");
}

#[test]
fn revert_names_the_commit() {
    let c = commit("abc123", "add x");
    assert_eq!(c.revert_arguments(), vec!["revert", "--no-commit", "abc123", "-m"]);
    let (subject, body) = c.revert_notice();
    assert_eq!(subject, "revert: \"add x\"");
    assert_eq!(body, "This reverts commit: abc123");
}
