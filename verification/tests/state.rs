use giter::model::RepoStats;
use giter::state::app_settings::AppSettings;
use giter::state::scan_result::{ScanResultStore, ScanState};
use giter::state::selected_repos::SelectedRepos;

// ---- settings ----

#[test]
fn test_add_recent_dedup() {
    let mut s = AppSettings::default();
    s.add_recent("/a".to_string());
    s.add_recent("/b".to_string());
    s.add_recent("/a".to_string());
    assert_eq!(s.recent_repos.len(), 2);
    assert_eq!(s.recent_repos[0], "/a".to_string());
}

#[test]
fn test_add_recent_truncate() {
    let mut s = AppSettings { max_recent: 3, ..Default::default() };
    s.add_recent("/a".to_string());
    s.add_recent("/b".to_string());
    s.add_recent("/c".to_string());
    s.add_recent("/d".to_string());
    assert_eq!(s.recent_repos.len(), 3);
}

// ---- scan results ----

fn dummy_stats() -> RepoStats {
    RepoStats {
        repo_path: "/dummy".into(),
        repo_name: "dummy".into(),
        commits: vec![],
        changes: vec![],
        snapshots: vec![],
    }
}

#[test]
fn test_default_is_not_scanned() {
    let store = ScanResultStore::new();
    assert!(matches!(store.get("/nonexistent"), ScanState::NotScanned));
}

#[test]
fn test_set_and_get() {
    let mut store = ScanResultStore::new();
    let path = "/repo".to_string();
    store.set_state(&path, ScanState::Scanning);
    assert!(matches!(store.get(&path), ScanState::Scanning));
}

#[test]
fn test_completed_state() {
    let mut store = ScanResultStore::new();
    let path = "/repo".to_string();
    store.set_state(&path, ScanState::Completed(dummy_stats()));
    match store.get(&path) {
        ScanState::Completed(s) => assert_eq!(s.repo_name, "dummy"),
        _ => panic!("expected Completed"),
    }
}

#[test]
fn test_failed_state() {
    let mut store = ScanResultStore::new();
    let path = "/repo".to_string();
    store.set_state(&path, ScanState::Failed("error".into()));
    match store.get(&path) {
        ScanState::Failed(msg) => assert_eq!(msg, "error"),
        _ => panic!("expected Failed"),
    }
}

#[test]
fn scan_result_test_remove() {
    let mut store = ScanResultStore::new();
    let path = "/repo".to_string();
    store.set_state(&path, ScanState::Scanning);
    store.remove(&path);
    assert!(store.is_empty());
}

// ---- selected repos ----

#[test]
fn test_add_and_contains() {
    let mut r = SelectedRepos::new();
    let p = "/repo".to_string();
    r.add(p.clone());
    assert!(r.contains(&p));
    assert_eq!(r.len(), 1);
}

#[test]
fn test_add_duplicate() {
    let mut r = SelectedRepos::new();
    let p = "/repo".to_string();
    r.add(p.clone());
    r.add(p.clone());
    assert_eq!(r.len(), 1);
}

#[test]
fn selected_repos_test_remove() {
    let mut r = SelectedRepos::new();
    let p = "/repo".to_string();
    r.add(p.clone());
    r.remove(&p);
    assert!(!r.contains(&p));
    assert!(r.is_empty());
}

#[test]
fn test_empty() {
    let r = SelectedRepos::new();
    assert!(r.is_empty());
    assert_eq!(r.len(), 0);
}

#[test]
fn commit_limit_zero_is_unlimited() {
    let mut s = AppSettings::default();
    assert_eq!(s.commit_limit(), Some(5000));
    s.max_commits = 0;
    assert_eq!(s.commit_limit(), None);
}

#[test]
fn selected_repos_history_keeps_insertion_order() {
    let mut r = SelectedRepos::new();
    r.add("/a".to_string());
    r.add("/b".to_string());
    r.add("/c".to_string());
    r.add("/a/".to_string());
    r.remove("/b");
    r.add("/b".to_string());
    assert_eq!(r.all().to_vec(), vec!["/a".to_string(), "/c".to_string(), "/b".to_string()]);
    assert_eq!(r.len(), 3);
}
