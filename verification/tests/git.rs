use oxide::git::{
    file_statuses, git_text, git_usable, parse_porcelain_z, plain_path, read_git_status, rollup,
    toplevel, GitFileStatus, GitStatus, StatusError, StatusMap, MAX_STATUS_ENTRIES,
};

fn parse(s: &[u8]) -> StatusMap {
    parse_porcelain_z(s, b"/r").unwrap()
}

fn at(m: &StatusMap, path: &str) -> Option<GitFileStatus> {
    m.get(path.as_bytes())
}

#[test]
fn parses_common_statuses() {
    let m = parse(b" M src/a.rs\0A  src/new.rs\0?? notes.txt\0 D gone.rs\0UU merge.rs\0MM both.rs\0");
    assert_eq!(at(&m, "/r/src/a.rs"), Some(GitFileStatus::Modified));
    assert_eq!(at(&m, "/r/src/new.rs"), Some(GitFileStatus::Added));
    assert_eq!(at(&m, "/r/notes.txt"), Some(GitFileStatus::Untracked));
    assert_eq!(at(&m, "/r/gone.rs"), Some(GitFileStatus::Deleted));
    assert_eq!(at(&m, "/r/merge.rs"), Some(GitFileStatus::Conflicted));
    assert_eq!(at(&m, "/r/both.rs"), Some(GitFileStatus::Modified), "staged and modified");
}

#[test]
fn renames_consume_the_original_record() {
    let m = parse(b"R  new.rs\0old.rs\0 M other.rs\0");
    assert_eq!(at(&m, "/r/new.rs"), Some(GitFileStatus::Renamed));
    assert!(at(&m, "/r/old.rs").is_none());
    assert_eq!(at(&m, "/r/other.rs"), Some(GitFileStatus::Modified));
}

#[test]
fn changes_of_the_work_tree_count_like_those_of_the_index() {
    let m = parse(b" R new.rs\0A  old.rs\0 A later.rs\0 C copy.rs\0?? from.rs\0RM both.rs\0was.rs\0");
    assert_eq!(at(&m, "/r/new.rs"), Some(GitFileStatus::Renamed));
    assert_eq!(at(&m, "/r/old.rs"), None, "the name it had");
    assert_eq!(at(&m, "/r/later.rs"), Some(GitFileStatus::Added));
    assert_eq!(at(&m, "/r/copy.rs"), Some(GitFileStatus::Renamed));
    assert_eq!(at(&m, "/r/from.rs"), None);
    assert_eq!(at(&m, "/r/both.rs"), Some(GitFileStatus::Renamed));
    assert_eq!(m.len(), 4);
}

#[test]
fn the_index_outranks_a_rename_or_addition_in_the_work_tree() {
    let m = parse(b"MA a.rs\0MR b.rs\0was_b.rs\0AR c.rs\0was_c.rs\0TC d.rs\0was_d.rs\0AC e.rs\0was_e.rs\0");
    assert_eq!(at(&m, "/r/a.rs"), Some(GitFileStatus::Modified));
    assert_eq!(at(&m, "/r/b.rs"), Some(GitFileStatus::Modified));
    assert_eq!(at(&m, "/r/c.rs"), Some(GitFileStatus::Added));
    assert_eq!(at(&m, "/r/d.rs"), Some(GitFileStatus::Modified));
    assert_eq!(at(&m, "/r/e.rs"), Some(GitFileStatus::Added));
    assert_eq!(m.len(), 5);
}

#[test]
fn nul_separation_keeps_odd_filenames_intact() {
    let m = parse(b"?? has space.txt\0?? line\nbreak.txt\0");
    assert!(at(&m, "/r/has space.txt").is_some());
    assert!(at(&m, "/r/line\nbreak.txt").is_some());
}

#[test]
fn ignored_entries_are_skipped_and_size_is_capped() {
    assert_eq!(parse(b"!! target/\0").len(), 0);
    let mut big: Vec<u8> = Vec::new();
    for i in 0..=MAX_STATUS_ENTRIES {
        big.extend_from_slice(format!("?? f{i}\0").as_bytes());
    }
    assert!(matches!(parse_porcelain_z(&big, b"/r"), Err(StatusError::TooLarge)));
}

#[test]
fn rollup_marks_every_ancestor_with_the_worst_state() {
    let m = parse(b"?? src/tree/deep/x.rs\0 M src/tree/y.rs\0UU src/z.rs\0");
    let m = rollup(m, b"/r");
    assert_eq!(at(&m, "/r/src/tree/deep"), Some(GitFileStatus::Untracked));
    assert_eq!(at(&m, "/r/src/tree"), Some(GitFileStatus::Modified), "modified outranks untracked");
    assert_eq!(at(&m, "/r/src"), Some(GitFileStatus::Conflicted));
    assert!(at(&m, "/r").is_none(), "the root itself isn't decorated");
    assert!(at(&m, "/").is_none());
}

#[test]
fn rollup_keeps_the_files() {
    let m = rollup(parse(b"?? a/b.rs\0"), b"/r");
    assert_eq!(m.len(), 2);
    assert_eq!(at(&m, "/r/a/b.rs"), Some(GitFileStatus::Untracked));
    assert_eq!(at(&m, "/r/a"), Some(GitFileStatus::Untracked));
}

#[test]
fn a_failed_status_is_an_error() {
    assert!(matches!(file_statuses(None, b"/r"), Err(StatusError::NotARepo)));
    assert_eq!(file_statuses(Some(b"?? a/b.rs\0"), b"/r").unwrap().len(), 2);
}

#[test]
fn untracked_directories_lose_their_slash() {
    assert_eq!(plain_path(b"/r//a/./b/"), b"/r/a/b".to_vec());
    assert!(at(&parse(b"?? dir/\0"), "/r/dir").is_some());
}

#[test]
fn the_branch_line_is_read() {
    let text = |s: &str| Some(s.to_string());
    let status = read_git_status(text("main"), None, text("M a"), text("2\t1"));
    assert_eq!(
        status,
        GitStatus { branch: text("main"), dirty: true, ahead: 2, behind: 1 }
    );
    let detached = read_git_status(None, text("abc123"), text(""), None);
    assert_eq!(
        detached,
        GitStatus { branch: text("abc123"), dirty: false, ahead: 0, behind: 0 }
    );
    assert_eq!(read_git_status(None, None, text("M a"), text("2\t1")), GitStatus::default());
    assert_eq!(read_git_status(text("main"), None, None, text("x\t1")).ahead, 0);
}

#[test]
fn git_output_is_trimmed_text() {
    assert_eq!(git_text(true, b" main\n"), Some("main".to_string()));
    assert_eq!(git_text(false, b"main"), None);
    assert_eq!(git_text(true, b"a\xffb"), Some("a\u{fffd}b".to_string()));
    assert_eq!(toplevel(Some("/r".to_string())), Some("/r".to_string()));
    assert_eq!(toplevel(Some("".to_string())), None);
}

#[test]
fn the_shim_is_no_git() {
    assert!(!git_usable(None, false, false));
    assert!(git_usable(Some("/usr/bin/git"), false, false));
    assert!(!git_usable(Some("/usr/bin/git"), true, false));
    assert!(git_usable(Some("/usr/bin/git"), true, true));
    assert!(git_usable(Some("/opt/homebrew/bin/git"), true, false));
}
