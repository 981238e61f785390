use criner::model::{ChangeKind, CrateVersion, Crate, Task, TaskState, task_key, version_key};
use criner::pool::{AttemptOutcome, run_attempts};
use criner::queue::BoundedQueue;
use criner::schedule::{
    Cursor, DownloadRequest, PlannedTask, all_but_recently_yanked, plan_tasks, process,
    schedule_entity,
};
use criner::store::{CrateVersionsTree, TasksTree};

fn version(name: &str, ver: &str, kind: ChangeKind) -> CrateVersion {
    CrateVersion { name: name.to_string(), version: ver.to_string(), kind }
}

fn store_state(tasks: &mut TasksTree, name: &str, ver: &str, process_name: &str, state: TaskState) {
    let key = task_key(name, ver, process_name, "1.0.0");
    let task = Task {
        stored_at: 1,
        process: process_name.to_string(),
        version: "1.0.0".to_string(),
        state,
    };
    tasks.upsert(&key, &task, 1);
}

/// Re-running the scheduler over an entity whose tasks are all complete
/// enqueues zero new tasks.
#[test]
fn scheduler_is_idempotent_on_completed_entities() {
    let mut versions_table = CrateVersionsTree::new();
    versions_table.insert(&version_key("pkg", "1"), version("pkg", "1", ChangeKind::Added));
    versions_table.insert(&version_key("pkg", "2"), version("pkg", "2", ChangeKind::Added));
    let mut tasks = TasksTree::new();
    for v in ["1", "2"] {
        store_state(&mut tasks, "pkg", v, "download", TaskState::Complete);
        store_state(&mut tasks, "pkg", v, "extract_crate", TaskState::Complete);
    }
    let mut io = BoundedQueue::new(4);
    let mut cpu = BoundedQueue::new(4);
    let versions = vec!["1".to_string(), "2".to_string()];
    let r = schedule_entity(
        &"pkg".to_string(),
        &versions,
        0,
        &versions_table,
        &tasks,
        &mut io,
        &mut cpu,
        100,
        3,
    );
    assert_eq!(r, 2);
    assert_eq!(io.len(), 0);
    assert_eq!(cpu.len(), 0);
}

/// Scheduling [v1 normal, v2 yanked, v3 yanked, v4 unknown] (newest last)
/// processes only v1 and skips v2..v4.
#[test]
fn yank_skip_processes_only_the_confirmed_version() {
    let mut versions_table = CrateVersionsTree::new();
    versions_table.insert(&version_key("pkg", "1"), version("pkg", "1", ChangeKind::Added));
    versions_table.insert(&version_key("pkg", "2"), version("pkg", "2", ChangeKind::Yanked));
    versions_table.insert(&version_key("pkg", "3"), version("pkg", "3", ChangeKind::Yanked));
    // "4" is absent from the store: unknown, treated as yanked.
    let versions: Vec<String> = ["1", "2", "3", "4"].iter().map(|s| s.to_string()).collect();
    let bound = all_but_recently_yanked(&"pkg".to_string(), &versions, &versions_table);
    assert_eq!(bound, 1);

    let tasks = TasksTree::new();
    let mut io = BoundedQueue::new(8);
    let mut cpu = BoundedQueue::new(8);
    let r = schedule_entity(
        &"pkg".to_string(),
        &versions,
        0,
        &versions_table,
        &tasks,
        &mut io,
        &mut cpu,
        100,
        3,
    );
    assert_eq!(r, 1);
    assert_eq!(io.len(), 1);
    assert_eq!(cpu.len(), 0);
    let only = io.try_recv().unwrap();
    assert_eq!(only.crate_name, "pkg");
    assert_eq!(only.crate_version, "1");
}

/// An inner yanked version (not part of the trailing run) is still counted.
#[test]
fn yank_skip_only_excludes_the_trailing_run() {
    let mut versions_table = CrateVersionsTree::new();
    versions_table.insert(&version_key("pkg", "1"), version("pkg", "1", ChangeKind::Yanked));
    versions_table.insert(&version_key("pkg", "2"), version("pkg", "2", ChangeKind::Added));
    let versions: Vec<String> = ["1", "2"].iter().map(|s| s.to_string()).collect();
    let bound = all_but_recently_yanked(&"pkg".to_string(), &versions, &versions_table);
    assert_eq!(bound, 2);
}

#[test]
fn plan_prefers_download_then_extract_then_nothing() {
    let mut tasks = TasksTree::new();
    let name = "pkg".to_string();
    let ver = "1".to_string();
    // Nothing recorded: download is outstanding.
    assert!(matches!(plan_tasks(&tasks, &name, &ver, 100, 3), PlannedTask::Download(_)));
    // Download complete: extraction is outstanding, carrying the download task.
    store_state(&mut tasks, "pkg", "1", "download", TaskState::Complete);
    match plan_tasks(&tasks, &name, &ver, 100, 3) {
        PlannedTask::Extract(e) => {
            assert_eq!(e.crate_name, "pkg");
            assert_eq!(e.crate_version, "1");
            assert_eq!(e.download_task.process, "download");
            assert!(matches!(e.download_task.state, TaskState::Complete));
        }
        _ => panic!("expected an extraction plan"),
    }
    // Both complete: nothing.
    store_state(&mut tasks, "pkg", "1", "extract_crate", TaskState::Complete);
    assert!(matches!(plan_tasks(&tasks, &name, &ver, 100, 3), PlannedTask::Nothing));
}

#[test]
fn plan_respects_staleness_and_attempt_budget() {
    let mut tasks = TasksTree::new();
    let name = "pkg".to_string();
    let ver = "1".to_string();
    // Fresh in-progress download (started after this run began): leave it.
    store_state(&mut tasks, "pkg", "1", "download", TaskState::InProgress { start_time: 150 });
    assert!(matches!(plan_tasks(&tasks, &name, &ver, 100, 3), PlannedTask::Nothing));
    // Stale in-progress download from before the restart: resubmit.
    store_state(&mut tasks, "pkg", "1", "download", TaskState::InProgress { start_time: 50 });
    assert!(matches!(plan_tasks(&tasks, &name, &ver, 100, 3), PlannedTask::Download(_)));
    // Failed within budget: retried; over budget: given up.
    store_state(
        &mut tasks,
        "pkg",
        "1",
        "download",
        TaskState::AttemptsWithFailure { count: 2, last_error: "timed out".to_string() },
    );
    assert!(matches!(plan_tasks(&tasks, &name, &ver, 100, 3), PlannedTask::Download(_)));
    assert!(matches!(plan_tasks(&tasks, &name, &ver, 100, 2), PlannedTask::Nothing));
}

/// A stage with queue capacity 1 refuses the second item and hands it back:
/// the producer must block; nothing is dropped or reordered.
#[test]
fn backpressure_blocks_the_producer_without_dropping() {
    let mut q: BoundedQueue<DownloadRequest> = BoundedQueue::new(1);
    let first = DownloadRequest { crate_name: "a".to_string(), crate_version: "1".to_string() };
    let second = DownloadRequest { crate_name: "b".to_string(), crate_version: "2".to_string() };
    assert!(q.try_send(first).is_ok());
    let refused = q.try_send(second).unwrap_err();
    assert_eq!(refused.crate_name, "b");
    assert_eq!(q.len(), 1);
    let got = q.try_recv().unwrap();
    assert_eq!(got.crate_name, "a");
    assert!(q.try_send(refused).is_ok());
    let got = q.try_recv().unwrap();
    assert_eq!(got.crate_name, "b");
    assert!(q.try_recv().is_none());
}

/// The checkpoint pass stops at a saturated queue and resumes there.
#[test]
fn checkpoint_pass_pauses_on_backpressure_and_resumes() {
    let mut versions_table = CrateVersionsTree::new();
    versions_table.insert(&version_key("pkg", "1"), version("pkg", "1", ChangeKind::Added));
    versions_table.insert(&version_key("pkg", "2"), version("pkg", "2", ChangeKind::Added));
    let tasks = TasksTree::new();
    let krates = vec![(
        "pkg".to_string(),
        Crate { versions: vec!["1".to_string(), "2".to_string()] },
    )];
    let mut io = BoundedQueue::new(1);
    let mut cpu = BoundedQueue::new(1);
    let cur = process(
        &krates,
        Cursor { entity: 0, version: 0 },
        &versions_table,
        &tasks,
        &mut io,
        &mut cpu,
        100,
        3,
    );
    // Both versions need a download but only one fits.
    assert_eq!(cur.entity, 0);
    assert_eq!(cur.version, 1);
    assert_eq!(io.len(), 1);
    // Drain and resume.
    assert_eq!(io.try_recv().unwrap().crate_version, "1");
    let cur = process(&krates, cur, &versions_table, &tasks, &mut io, &mut cpu, 100, 3);
    assert_eq!(cur.entity, 1);
    assert_eq!(io.try_recv().unwrap().crate_version, "2");
}

/// An I/O task that always times out is attempted exactly max_retries + 1
/// times before being marked failed; a CPU task that times out is attempted
/// exactly once.
#[test]
fn retry_bound_is_exactly_max_retries_plus_one() {
    let outcomes = vec![AttemptOutcome::TimedOut; 41];
    let (attempts, state) = run_attempts(&outcomes, 40);
    assert_eq!(attempts, 41);
    match state {
        TaskState::AttemptsWithFailure { count, last_error } => {
            assert_eq!(count, 41);
            assert_eq!(last_error, "timed out");
        }
        _ => panic!("expected a failure record"),
    }

    let cpu_outcomes = vec![AttemptOutcome::TimedOut];
    let (attempts, state) = run_attempts(&cpu_outcomes, 0);
    assert_eq!(attempts, 1);
    assert!(matches!(state, TaskState::AttemptsWithFailure { count: 1, .. }));
}

#[test]
fn a_success_or_hard_failure_ends_the_attempts() {
    let outcomes = vec![AttemptOutcome::TimedOut, AttemptOutcome::Done, AttemptOutcome::TimedOut];
    let (attempts, state) = run_attempts(&outcomes, 2);
    assert_eq!(attempts, 2);
    assert!(matches!(state, TaskState::Complete));

    let outcomes = vec![
        AttemptOutcome::TimedOut,
        AttemptOutcome::Failed("disk full".to_string()),
        AttemptOutcome::Done,
    ];
    let (attempts, state) = run_attempts(&outcomes, 2);
    assert_eq!(attempts, 2);
    match state {
        TaskState::AttemptsWithFailure { count, last_error } => {
            assert_eq!(count, 2);
            assert_eq!(last_error, "disk full");
        }
        _ => panic!("expected a failure record"),
    }
}
