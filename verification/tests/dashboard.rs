use giter::browser::{branch_label, byte_prefix, commit_row, message_cell, RepoBrowser, BROWSER_COMMIT_LIMIT};
use giter::calendar::{days_from_monday_of, epoch_day_of, week_start_of};
use giter::commands::{contributors_of, finish_scan, scan_outcome, trends_of};
use giter::error::CoreError;
use giter::format::{date_string, day_string, decimal_string, signed_decimal_string, two_digit_string};
use giter::git::{BranchInfo, CommitInfo};
use giter::model::{ChangeRecord, CommitRecord, RepoStats};
use giter::model::repo_raw_data::RepoRawData;
use giter::path::{components_of, same_path};
use giter::state::scan_result::{ScanResultStore, ScanState};

fn commit(author: &str, secs: i64) -> CommitRecord {
    CommitRecord {
        repo_name: "r".into(),
        hash: "h".into(),
        author_name: author.into(),
        author_email: format!("{}@example.com", author.to_lowercase()),
        datetime: secs,
        message: String::new(),
    }
}

fn change(secs: i64, ins: u32, del: u32) -> ChangeRecord {
    ChangeRecord {
        commit_hash: "h".into(),
        file_path: "f.rs".into(),
        ext: "rs".into(),
        insertions: ins,
        deletions: del,
        datetime: secs,
    }
}

fn completed_store(path: &str, commits: Vec<CommitRecord>, changes: Vec<ChangeRecord>) -> ScanResultStore {
    let mut store = ScanResultStore::new();
    store.set_state(
        path,
        ScanState::Completed(RepoStats {
            repo_path: path.into(),
            repo_name: "r".into(),
            commits,
            changes,
            snapshots: vec![],
        }),
    );
    store
}

fn text(cs: Vec<char>) -> String {
    cs.into_iter().collect()
}

// ---- formatting ----

#[test]
fn decimal_text_of_integers() {
    assert_eq!(decimal_string(0), "0");
    assert_eq!(decimal_string(7), "7");
    assert_eq!(decimal_string(10), "10");
    assert_eq!(decimal_string(2024), "2024");
    assert_eq!(decimal_string(u64::MAX), u64::MAX.to_string());
    assert_eq!(signed_decimal_string(-5), "-5");
    assert_eq!(signed_decimal_string(i64::MIN), i64::MIN.to_string());
    assert_eq!(signed_decimal_string(42), "42");
    assert_eq!(two_digit_string(3), "03");
    assert_eq!(two_digit_string(12), "12");
    assert_eq!(two_digit_string(123), "123");
}

#[test]
fn date_text_pads_month_and_day() {
    assert_eq!(date_string(2024, 3, 5), "2024-03-05");
    assert_eq!(date_string(-44, 12, 31), "-44-12-31");
    assert_eq!(date_string(7, 1, 1), "7-01-01");
}

#[test]
fn day_text_of_day_numbers() {
    assert_eq!(day_string(0), "1970-01-01");
    assert_eq!(day_string(19_723), "2024-01-01");
    assert_eq!(day_string(-1), "1969-12-31");
    assert_eq!(day_string(-96_465_292), "-262143-01-01");
    assert_eq!(day_string(95_026_236), "262142-12-31");
    // Just outside chrono's range there is no date to write.
    assert_eq!(day_string(-96_465_293), "");
    assert_eq!(day_string(95_026_237), "");
}

#[test]
fn calendar_day_and_week() {
    assert_eq!(epoch_day_of(0), 0);
    assert_eq!(epoch_day_of(86_399), 0);
    assert_eq!(epoch_day_of(86_400), 1);
    assert_eq!(epoch_day_of(-1), -1);
    assert_eq!(epoch_day_of(-86_400), -1);
    assert_eq!(epoch_day_of(-86_401), -2);
    // 1970-01-01 was a Thursday; 1969-12-29 a Monday.
    assert_eq!(days_from_monday_of(0), 3);
    assert_eq!(week_start_of(0), -3);
    assert_eq!(days_from_monday_of(-3), 0);
    assert_eq!(week_start_of(-4), -10);
    assert_eq!(week_start_of(4), 4);
}

#[test]
fn error_messages() {
    assert_eq!(CoreError::Io("disk full".into()).message(), "IO error: disk full");
    assert_eq!(CoreError::Git2("bad ref".into()).message(), "Git error: bad ref");
    assert_eq!(
        CoreError::NotAGitRepository("/tmp/x".into()).message(),
        "Not a git repository: /tmp/x"
    );
    assert_eq!(CoreError::Serde("eof".into()).message(), "JSON serialization error: eof");
    assert_eq!(CoreError::Csv("quote".into()).message(), "CSV error: quote");
    assert_eq!(CoreError::InvalidDate(-300000, 13).message(), "Invalid date: year=-300000 month=13");
}

// ---- paths ----

#[test]
fn paths_compare_by_components() {
    assert!(same_path("/a/b", "/a/b/"));
    assert!(same_path("/a//b", "/a/b"));
    assert!(same_path("/a/./b", "/a/b"));
    assert!(same_path("./a", "./a/"));
    assert!(!same_path("./a", "a"));
    assert!(!same_path("/a", "a"));
    assert!(!same_path("/a/../b", "/b"));
    assert!(!same_path("", "."));
    assert!(same_path("", ""));
    let c: Vec<String> = components_of("/usr//lib/./x/").into_iter().map(text).collect();
    assert_eq!(c, vec!["/", "usr", "lib", "x"]);
    let c: Vec<String> = components_of("./a/b").into_iter().map(text).collect();
    assert_eq!(c, vec![".", "a", "b"]);
}

// ---- dashboard commands ----

#[test]
fn contributors_of_completed_scan() {
    let store = completed_store("/repo", vec![commit("Bob", 0), commit("Alice", 0), commit("Bob", 0)], vec![]);
    let c = contributors_of(&store, "/repo");
    assert_eq!(c, vec![("Bob".to_string(), 2), ("Alice".to_string(), 1)]);
    assert!(contributors_of(&store, "/other").is_empty());
    let mut scanning = ScanResultStore::new();
    scanning.set_state("/repo", ScanState::Scanning);
    assert!(contributors_of(&scanning, "/repo").is_empty());
}

#[test]
fn trends_of_completed_scan() {
    // 2024-01-01 is a Monday (day 19723).
    let day = 86_400;
    let t0 = 19_723 * day;
    let commits = vec![commit("A", t0 + 10), commit("A", t0 + 2 * day), commit("B", t0 + 40 * day)];
    let changes = vec![change(t0, 5, 1), change(t0 + 100, 2, 2), change(t0 + day, 1, 0)];
    let store = completed_store("/repo", commits, changes);
    let (by_day, by_week, by_month, churn) = trends_of(&store, "/repo");
    assert_eq!(
        by_day,
        vec![("2024-01-01".to_string(), 1), ("2024-01-03".to_string(), 1), ("2024-02-10".to_string(), 1)]
    );
    assert_eq!(by_week, vec![("2024-01-01".to_string(), 2), ("2024-02-05".to_string(), 1)]);
    assert_eq!(by_month, vec![("2024-01-01".to_string(), 2), ("2024-02-01".to_string(), 1)]);
    assert_eq!(churn, vec![("2024-01-01".to_string(), 7, 3), ("2024-01-02".to_string(), 1, 0)]);
}

#[test]
fn trends_of_unscanned_repo_is_empty() {
    let store = ScanResultStore::new();
    let (a, b, c, d) = trends_of(&store, "/nowhere");
    assert!(a.is_empty() && b.is_empty() && c.is_empty() && d.is_empty());
}

#[test]
fn scan_outcome_of_success_and_failure() {
    let data = RepoRawData {
        repo_name: "proj".into(),
        commits: vec![commit("A", 0)],
        changes: vec![change(0, 1, 1)],
        snapshots: vec![],
    };
    match scan_outcome("/x/proj", Ok(data)) {
        ScanState::Completed(stats) => {
            assert_eq!(stats.repo_path, "/x/proj");
            assert_eq!(stats.repo_name, "proj");
            assert_eq!(stats.commits.len(), 1);
            assert_eq!(stats.changes.len(), 1);
            assert!(stats.snapshots.is_empty());
        }
        _ => panic!("expected Completed"),
    }
    match scan_outcome("/x", Err(CoreError::NotAGitRepository("/x".into()))) {
        ScanState::Failed(msg) => assert_eq!(msg, "Not a git repository: /x"),
        _ => panic!("expected Failed"),
    }
}

#[test]
fn finish_scan_records_outcome_for_that_path_only() {
    let mut store = ScanResultStore::new();
    store.set_state("/a", ScanState::Scanning);
    store.set_state("/b", ScanState::Scanning);
    finish_scan(&mut store, "/a", Err(CoreError::Git2("boom".into())));
    match store.get("/a") {
        ScanState::Failed(msg) => assert_eq!(msg, "Git error: boom"),
        _ => panic!("expected Failed"),
    }
    assert!(matches!(store.get("/b"), ScanState::Scanning));
}

// ---- browser ----

fn info(hash: &str, datetime: &str, message: &str) -> CommitInfo {
    CommitInfo {
        hash: hash.into(),
        author_name: "Ann".into(),
        author_email: "ann@x".into(),
        datetime: datetime.into(),
        message: message.into(),
    }
}

#[test]
fn byte_prefix_cuts_by_bytes() {
    assert_eq!(byte_prefix("0123456789abcdef", 8), "01234567");
    assert_eq!(byte_prefix("abc", 8), "abc");
    assert_eq!(byte_prefix("héllo", 3), "hé");
}

#[test]
fn message_cell_shortens_long_messages() {
    let long = "x".repeat(60);
    assert_eq!(message_cell(&long), format!("{}...", "x".repeat(50)));
    let exact = "y".repeat(50);
    assert_eq!(message_cell(&exact), exact);
    assert_eq!(message_cell("short"), "short");
}

#[test]
fn commit_row_and_branch_label() {
    let c = info("0123456789abcdef0123", "2024-01-02T03:04:05+00:00", "Initial commit");
    let row = commit_row(&c);
    assert_eq!(row, ("01234567".into(), "Ann".into(), "2024-01-02".into(), "Initial commit".into()));
    let head = BranchInfo { name: "main".into(), is_head: true, is_remote: false };
    let other = BranchInfo { name: "dev".into(), is_head: false, is_remote: false };
    assert_eq!(branch_label(&head), "* main");
    assert_eq!(branch_label(&other), "dev");
}

#[test]
fn browser_open_and_fail() {
    let mut b = RepoBrowser::default();
    assert!(b.shows_status());
    assert_eq!(b.status_message, "Welcome to Giter! Open a git repository to begin.");
    let branches = vec![BranchInfo { name: "main".into(), is_head: true, is_remote: false }];
    let commits = vec![info("abc", "2024-01-02T00:00:00Z", "m")];
    b.open_succeeded("/repo", Some(branches), Some(commits));
    assert!(b.is_open);
    assert!(!b.shows_status());
    assert_eq!(b.status_message, "Opened repository: /repo");
    assert_eq!(b.branch_labels(), vec!["* main".to_string()]);
    let rows = b.commit_rows();
    assert_eq!(rows.len(), 1);
    assert_eq!(rows[0].0, "abc");
    b.open_succeeded("/other", None, None);
    assert!(b.branches.is_empty() && b.commits.is_empty());
    b.open_failed("/bad", &CoreError::Git2("could not find repository".into()));
    assert!(!b.is_open);
    assert!(b.shows_status());
    assert_eq!(b.repo_path, "/bad");
    assert_eq!(b.status_message, "Failed to open repository: Git error: could not find repository");
    assert!(b.commit_rows().is_empty());
    assert_eq!(BROWSER_COMMIT_LIMIT, 100);
}
