use criner::model::{ChangeKind, Context, CrateVersion, Task, TaskState, task_key, version_key};
use criner::store::{
    ContextTree, CrateVersionsTree, CratesTree, OpOutcome, ReportsTree, Table, TasksTree,
    retry_on_db_lock,
};

fn version(name: &str, ver: &str, kind: ChangeKind) -> CrateVersion {
    CrateVersion { name: name.to_string(), version: ver.to_string(), kind }
}

#[test]
fn task_key_is_the_colon_separated_composite() {
    let key = task_key("serde", "1.0.0", "download", "1.0.0");
    assert_eq!(key, "serde:1.0.0:download:1.0.0");
    let task = Task {
        stored_at: 7,
        process: "extract_crate".to_string(),
        version: "1.0.0".to_string(),
        state: TaskState::NotStarted,
    };
    assert_eq!(task.fq_key("a", "0.1.0"), "a:0.1.0:extract_crate:1.0.0");
    assert_eq!(version_key("a", "0.1.0"), "a:0.1.0");
}

#[test]
fn report_key_is_the_colon_separated_composite() {
    let key = ReportsTree::key("serde", "1.0.0", "counts", "1.0.0");
    assert_eq!(key, "serde:1.0.0:counts:1.0.0");
}

#[test]
fn table_put_get_replaces_and_counts() {
    let mut table: Table<u64> = Table::new();
    assert_eq!(table.count(), 0);
    table.put(&"a".to_string(), 1);
    table.put(&"b".to_string(), 2);
    assert_eq!(table.count(), 2);
    table.put(&"a".to_string(), 3);
    assert_eq!(table.count(), 2);
    assert_eq!(table.get(&"a".to_string()), Some(&3));
    assert_eq!(table.get(&"b".to_string()), Some(&2));
    assert_eq!(table.get(&"c".to_string()), None);
}

#[test]
fn tasks_upsert_stamps_the_store_time() {
    let mut tasks = TasksTree::new();
    let key = "a:1:download:1.0.0".to_string();
    let task = Task {
        stored_at: 5,
        process: "download".to_string(),
        version: "1.0.0".to_string(),
        state: TaskState::Complete,
    };
    let stored = tasks.upsert(&key, &task, 99);
    assert_eq!(stored.stored_at, 99);
    assert_eq!(stored.process, "download");
    assert!(matches!(stored.state, TaskState::Complete));
    let read = tasks.get(&key).unwrap();
    assert_eq!(read.stored_at, 99);
}

#[test]
fn crates_upsert_folds_versions_without_duplicates() {
    let mut crates = CratesTree::new();
    let key = "pkg".to_string();
    let c1 = crates.upsert(&key, &version("pkg", "1", ChangeKind::Added));
    assert_eq!(c1.versions, vec!["1".to_string()]);
    let c2 = crates.upsert(&key, &version("pkg", "2", ChangeKind::Added));
    assert_eq!(c2.versions, vec!["1".to_string(), "2".to_string()]);
    let c3 = crates.upsert(&key, &version("pkg", "1", ChangeKind::Added));
    assert_eq!(c3.versions, vec!["1".to_string(), "2".to_string()]);
}

#[test]
fn context_merges_additively_per_day() {
    let mut meta = ContextTree::new();
    let today = "2020-02-01".to_string();
    let delta = Context { num_crates: 2, num_crate_versions: 5, dur_fetch_ms: 10 };
    let first = meta.update_today(&today, &delta);
    assert_eq!(first.num_crates, 2);
    let second = meta.update_today(&today, &delta);
    assert_eq!(second.num_crates, 4);
    assert_eq!(second.num_crate_versions, 10);
    assert_eq!(second.dur_fetch_ms, 20);
    // A different day starts from the empty default.
    let other = meta.update_today(&"2020-02-02".to_string(), &delta);
    assert_eq!(other.num_crates, 2);
}

#[test]
fn context_merge_saturates_instead_of_wrapping() {
    let a = Context { num_crates: u64::MAX - 1, num_crate_versions: 0, dur_fetch_ms: 0 };
    let b = Context { num_crates: 5, num_crate_versions: 1, dur_fetch_ms: 1 };
    let merged = a.merge(&b);
    assert_eq!(merged.num_crates, u64::MAX);
    assert_eq!(merged.num_crate_versions, 1);
}

#[test]
fn done_markers_round_trip() {
    let mut reports = ReportsTree::new();
    let key = ReportsTree::key("pkg", "1", "counts", "1.0.0");
    assert!(!reports.is_done(&key));
    reports.set_done(&key);
    assert!(reports.is_done(&key));
    assert!(!reports.is_done(&ReportsTree::key("pkg", "2", "counts", "1.0.0")));
}

#[test]
fn retry_surfaces_first_settled_outcome() {
    let mut outcomes = vec![OpOutcome::Busy, OpOutcome::Busy, OpOutcome::Succeeded];
    outcomes.resize(1000, OpOutcome::Succeeded);
    let r = retry_on_db_lock(&outcomes);
    assert_eq!(r.attempts, 3);
    assert_eq!(r.result, OpOutcome::Succeeded);

    let mut failing = vec![OpOutcome::Failed];
    failing.resize(1000, OpOutcome::Succeeded);
    let r = retry_on_db_lock(&failing);
    assert_eq!(r.attempts, 1);
    assert_eq!(r.result, OpOutcome::Failed);
}

#[test]
fn retry_gives_up_after_the_attempt_budget() {
    let outcomes = vec![OpOutcome::Busy; 1500];
    let r = retry_on_db_lock(&outcomes);
    assert_eq!(r.attempts, 1000);
    assert_eq!(r.result, OpOutcome::Busy);
}

#[test]
fn most_recent_returns_the_greatest_key() {
    let mut meta = ContextTree::new();
    assert!(meta.most_recent().is_none());
    let delta = Context { num_crates: 1, num_crate_versions: 0, dur_fetch_ms: 0 };
    meta.update_today(&"2020-02-02".to_string(), &delta);
    meta.update_today(&"2020-03-01".to_string(), &delta);
    meta.update_today(&"2020-02-28".to_string(), &delta);
    let (key, value) = meta.most_recent().unwrap();
    assert_eq!(key, "2020-03-01");
    assert_eq!(value.num_crates, 1);
}

#[test]
fn crate_versions_store_replaces() {
    let mut table = CrateVersionsTree::new();
    let key = version_key("pkg", "1");
    table.insert(&key, version("pkg", "1", ChangeKind::Added));
    assert_eq!(table.get(&key).unwrap().kind, ChangeKind::Added);
    table.insert(&key, version("pkg", "1", ChangeKind::Yanked));
    assert_eq!(table.get(&key).unwrap().kind, ChangeKind::Yanked);
    assert_eq!(table.count(), 1);
}
