use giter::git::change::{scan_changes, RawDelta};
use giter::git::commit::{commit_record, repo_name_of, scan_commits, RawCommit};
use giter::git::scanner::scan_repository;
use giter::git::snapshot::{scan_snapshot, snapshot_of_entry, RawTreeEntry};
use giter::git::{branch_info, commit_datetime, commit_info, walk_continues};
use giter::model::ChangeRecord;

const NOW: i64 = 1_700_000_000;

fn raw(hash: &str, name: Option<&str>, email: Option<&str>, message: Option<&str>, secs: i64) -> RawCommit {
    RawCommit {
        hash: hash.to_string(),
        author_name: name.map(|s| s.to_string()),
        author_email: email.map(|s| s.to_string()),
        message: message.map(|s| s.to_string()),
        time_seconds: secs,
        offset_minutes: 0,
    }
}

fn delta(path: &str, binary: bool, origins: &str) -> RawDelta {
    RawDelta {
        is_binary: binary,
        path: Some(path.to_string()),
        line_origins: origins.chars().collect(),
    }
}

fn blob(root: &str, name: &str, content: &[u8]) -> RawTreeEntry {
    RawTreeEntry {
        root: root.to_string(),
        name: Some(name.to_string()),
        is_blob: true,
        content: Some(content.to_vec()),
    }
}

#[test]
fn commit_record_fills_absent_fields() {
    let r = raw("abc123", None, None, None, 1_600_000_000);
    let rec = commit_record("repo", &r, NOW);
    assert_eq!(rec.repo_name, "repo");
    assert_eq!(rec.hash, "abc123");
    assert_eq!(rec.author_name, "unknown");
    assert_eq!(rec.author_email, "unknown");
    assert_eq!(rec.message, "");
    assert_eq!(rec.datetime, 1_600_000_000);
}

#[test]
fn commit_record_trims_message() {
    let r = raw("h", Some("Alice"), Some("alice@x.org"), Some("  fix bug\n\n"), 10);
    let rec = commit_record("repo", &r, NOW);
    assert_eq!(rec.author_name, "Alice");
    assert_eq!(rec.author_email, "alice@x.org");
    assert_eq!(rec.message, "fix bug");
    assert_eq!(rec.datetime, 10);
}

#[test]
fn commit_record_replaces_time_out_of_range() {
    let r = raw("h", Some("A"), Some("a@b"), Some("m"), i64::MAX);
    let rec = commit_record("repo", &r, NOW);
    assert_eq!(rec.datetime, NOW);
    let r = raw("h", Some("A"), Some("a@b"), Some("m"), 8_210_266_876_799);
    assert_eq!(commit_record("repo", &r, NOW).datetime, 8_210_266_876_799);
    let r = raw("h", Some("A"), Some("a@b"), Some("m"), 8_210_266_876_800);
    assert_eq!(commit_record("repo", &r, NOW).datetime, NOW);
    let r = raw("h", Some("A"), Some("a@b"), Some("m"), -8_334_601_228_800);
    assert_eq!(commit_record("repo", &r, NOW).datetime, -8_334_601_228_800);
    let r = raw("h", Some("A"), Some("a@b"), Some("m"), -8_334_601_228_801);
    assert_eq!(commit_record("repo", &r, NOW).datetime, NOW);
}

#[test]
fn repo_name_is_last_component() {
    assert_eq!(repo_name_of("/home/user/projects/giter"), "giter");
    assert_eq!(repo_name_of("/home/user/projects/giter/"), "giter");
    assert_eq!(repo_name_of("relative/repo"), "repo");
    assert_eq!(repo_name_of("/"), "unknown");
    assert_eq!(repo_name_of(""), "unknown");
    assert_eq!(repo_name_of("a/.."), "unknown");
}

#[test]
fn scan_commits_keeps_walk_order() {
    let walk = vec![
        raw("c3", Some("A"), Some("a@x"), Some("third"), 300),
        raw("c2", Some("B"), Some("b@x"), Some("second"), 200),
        raw("c1", Some("A"), Some("a@x"), Some("first"), 100),
    ];
    let recs = scan_commits("/tmp/my-repo", &walk, NOW);
    assert_eq!(recs.len(), 3);
    let hashes: Vec<&str> = recs.iter().map(|c| c.hash.as_str()).collect();
    assert_eq!(hashes, vec!["c3", "c2", "c1"]);
    assert!(recs.iter().all(|c| c.repo_name == "my-repo"));
    assert_eq!(recs[1].author_name, "B");
    assert_eq!(recs[2].datetime, 100);
}

#[test]
fn scan_commits_empty_walk() {
    assert!(scan_commits("/tmp/r", &Vec::new(), NOW).is_empty());
}

#[test]
fn scan_changes_counts_lines_and_skips_binary() {
    let deltas = vec![
        delta("src/main.rs", false, "+ + - +"),
        delta("logo.png", true, "++++"),
        delta("README", false, "--"),
    ];
    let changes = scan_changes("abc", 1_000, NOW, &deltas);
    assert_eq!(changes.len(), 2);
    assert_eq!(changes[0].commit_hash, "abc");
    assert_eq!(changes[0].file_path, "src/main.rs");
    assert_eq!(changes[0].ext, "rs");
    assert_eq!(changes[0].insertions, 3);
    assert_eq!(changes[0].deletions, 1);
    assert_eq!(changes[0].datetime, 1_000);
    assert_eq!(changes[1].file_path, "README");
    assert_eq!(changes[1].ext, "");
    assert_eq!(changes[1].insertions, 0);
    assert_eq!(changes[1].deletions, 2);
}

#[test]
fn scan_changes_initial_commit_has_no_deletions() {
    let deltas = vec![delta("main.rs", false, "+++")];
    let changes = scan_changes("root", i64::MIN, NOW, &deltas);
    assert_eq!(changes.len(), 1);
    assert_eq!(changes[0].deletions, 0);
    assert_eq!(changes[0].insertions, 3);
    assert_eq!(changes[0].datetime, NOW);
}

#[test]
fn scan_changes_delta_without_path() {
    let deltas = vec![RawDelta { is_binary: false, path: None, line_origins: vec!['+'] }];
    let changes = scan_changes("h", 5, NOW, &deltas);
    assert_eq!(changes[0].file_path, "");
    assert_eq!(changes[0].ext, "");
}

#[test]
fn snapshot_of_files_in_head_tree() {
    let entries = vec![
        blob("", "main.rs", b"// comment\nfn main() {\n    println!(\"hi\");\n}\n"),
        blob("", "lib.py", b"# py comment\ndef foo():\n    pass\n"),
        blob("", "empty.md", b""),
    ];
    let snapshots = scan_snapshot(&entries);
    assert_eq!(snapshots.len(), 3);
    let main_rs = snapshots.iter().find(|s| s.file_path == "main.rs").expect("main.rs");
    assert_eq!(main_rs.comment_lines, 1);
    assert_eq!(main_rs.code_lines, 3);
    let lib_py = snapshots.iter().find(|s| s.file_path == "lib.py").expect("lib.py");
    assert_eq!(lib_py.comment_lines, 1);
    assert_eq!(lib_py.code_lines, 2);
    assert_eq!(lib_py.blank_lines, 0);
    let empty_md = snapshots.iter().find(|s| s.file_path == "empty.md").expect("empty.md");
    assert_eq!(empty_md.code_lines, 0);
    assert_eq!(empty_md.comment_lines, 0);
    assert_eq!(empty_md.blank_lines, 0);
}

#[test]
fn snapshot_skips_binary_submodules_and_unread_blobs() {
    let entries = vec![
        blob("assets/", "logo.png", &[0x89, 0x50, 0xff, 0xfe]),
        RawTreeEntry { root: String::new(), name: Some("vendor".into()), is_blob: false, content: None },
        RawTreeEntry { root: String::new(), name: Some("lost.rs".into()), is_blob: true, content: None },
        RawTreeEntry { root: String::new(), name: None, is_blob: true, content: Some(b"x".to_vec()) },
        blob("src/", "Lib.RS", b"/* a\n b */\nfn f() {}\n\n"),
    ];
    let snapshots = scan_snapshot(&entries);
    assert_eq!(snapshots.len(), 1);
    assert_eq!(snapshots[0].file_path, "src//Lib.RS");
    assert_eq!(snapshots[0].comment_lines, 2);
    assert_eq!(snapshots[0].code_lines, 1);
    assert_eq!(snapshots[0].blank_lines, 1);
    assert_eq!(snapshots[0].commit_hash, "");
}

#[test]
fn snapshot_of_entry_reads_crlf_lines() {
    let e = blob("", "a.sh", b"#!/bin/sh\r\n\r\necho hi\r\n");
    let rec = snapshot_of_entry(&e).expect("text file");
    assert_eq!(rec.comment_lines, 1);
    assert_eq!(rec.blank_lines, 1);
    assert_eq!(rec.code_lines, 1);
}

#[test]
fn scan_repository_concatenates_changes() {
    let commits = scan_commits("/x/proj", &vec![raw("b", None, None, None, 2), raw("a", None, None, None, 1)], NOW);
    let change = |h: &str, f: &str| ChangeRecord {
        commit_hash: h.to_string(),
        file_path: f.to_string(),
        ext: String::new(),
        insertions: 1,
        deletions: 0,
        datetime: 1,
    };
    let per_commit = vec![vec![change("b", "f1"), change("b", "f2")], vec![], vec![change("a", "f3")]];
    let data = scan_repository("/x/proj", None, commits, per_commit, None);
    assert_eq!(data.repo_name, "proj");
    assert_eq!(data.commits.len(), 2);
    let files: Vec<&str> = data.changes.iter().map(|c| c.file_path.as_str()).collect();
    assert_eq!(files, vec!["f1", "f2", "f3"]);
    assert!(data.snapshots.is_empty());
}

#[test]
fn scan_repository_keeps_commit_limit() {
    let walk = vec![raw("c", None, None, None, 3), raw("b", None, None, None, 2), raw("a", None, None, None, 1)];
    let commits = scan_commits("/x/proj", &walk, NOW);
    let change = |h: &str| ChangeRecord {
        commit_hash: h.to_string(),
        file_path: "f".to_string(),
        ext: String::new(),
        insertions: 1,
        deletions: 1,
        datetime: 1,
    };
    let per_commit = vec![vec![change("c")], vec![change("b"), change("b")], vec![change("a")]];
    let data = scan_repository("/x/proj", Some(2), commits, per_commit, None);
    let hashes: Vec<&str> = data.commits.iter().map(|c| c.hash.as_str()).collect();
    assert_eq!(hashes, vec!["c", "b"]);
    let changed: Vec<&str> = data.changes.iter().map(|c| c.commit_hash.as_str()).collect();
    assert_eq!(changed, vec!["c", "b", "b"]);
    let commits = scan_commits("/x/proj", &walk, NOW);
    let data = scan_repository("/x/proj", Some(10), commits, vec![vec![], vec![], vec![]], None);
    assert_eq!(data.commits.len(), 3);
}

#[test]
fn commit_info_formats_time_at_offset() {
    let mut r = raw("deadbeef", Some("Bob"), None, Some(" hello \n"), 0);
    r.offset_minutes = 120;
    let info = commit_info(&r, "NOW");
    assert_eq!(info.hash, "deadbeef");
    assert_eq!(info.author_name, "Bob");
    assert_eq!(info.author_email, "unknown");
    assert_eq!(info.message, "hello");
    assert_eq!(info.datetime, "1970-01-01T02:00:00+02:00");
}

#[test]
fn commit_datetime_falls_back_to_now() {
    assert_eq!(commit_datetime(0, 0, "NOW"), "1970-01-01T00:00:00+00:00");
    assert_eq!(commit_datetime(i64::MAX, 0, "NOW"), "NOW");
    assert_eq!(commit_datetime(0, 24 * 60, "NOW"), "NOW");
    assert_eq!(commit_datetime(86_400, -330, "NOW"), "1970-01-01T18:30:00-05:30");
}

#[test]
fn commit_datetime_writes_years_outside_four_digits() {
    // 10000-01-01T00:00:00Z
    assert_eq!(commit_datetime(253_402_300_800, 0, "NOW"), "+10000-01-01T00:00:00+00:00");
    // 0050-06-15T12:00:00Z
    assert_eq!(commit_datetime(-60_574_996_800, 0, "NOW"), "0050-06-15T12:00:00+00:00");
    // the earliest time: -262143-01-01T00:00:00Z
    assert_eq!(commit_datetime(-8_334_601_228_800, 0, "NOW"), "-262143-01-01T00:00:00+00:00");
    // seen one hour west of UTC it is still the previous year locally
    assert_eq!(commit_datetime(-8_334_601_228_800, -60, "NOW"), "-262144-12-31T23:00:00-01:00");
}

#[test]
fn branch_info_names_unknown() {
    let b = branch_info(&None, true, false);
    assert_eq!(b.name, "unknown");
    assert!(b.is_head);
    assert!(!b.is_remote);
    let b = branch_info(&Some("origin/main".to_string()), false, true);
    assert_eq!(b.name, "origin/main");
    assert!(b.is_remote);
}

#[test]
fn walk_stops_at_max_count() {
    assert!(walk_continues(None, 1_000_000));
    assert!(walk_continues(Some(3), 2));
    assert!(!walk_continues(Some(3), 3));
    assert!(!walk_continues(Some(0), 0));
}
