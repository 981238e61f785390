//! The task scheduler: given one entity and its version list, decide which
//! (process, process version) tasks are outstanding and enqueue exactly the
//! needed downstream work, in dependency order — a download before the
//! extraction that consumes it. A trailing run of versions that are yanked,
//! or unknown to the store (treated conservatively as yanked), is skipped
//! entirely.

use vstd::prelude::*;
use crate::extract::ExtractRequest;
use crate::model::{ChangeKind, Crate, Task, TaskState, task_key, version_key};
use crate::queue::BoundedQueue;
use crate::store::{CrateVersionsTree, TasksTree};

verus! {

/// One unit of download work for the I/O-bound stage.
pub struct DownloadRequest {
    pub crate_name: String,
    pub crate_version: String,
}

impl Clone for DownloadRequest {
    fn clone(&self) -> (r: Self)
        ensures
            r == *self,
    {
        DownloadRequest {
            crate_name: self.crate_name.clone(),
            crate_version: self.crate_version.clone(),
        }
    }
}

/// The task record under which download work is persisted.
pub fn default_persisted_download_task(now: u64) -> (r: Task)
    ensures
        r.stored_at == now,
        r.process@ == "download"@,
        r.version@ == "1.0.0"@,
        r.state == TaskState::NotStarted,
{
    Task {
        stored_at: now,
        process: String::from_str("download"),
        version: String::from_str("1.0.0"),
        state: TaskState::NotStarted,
    }
}

/// The ledger key of the download task of one entity version.
pub open spec fn spec_download_key(name: Seq<char>, version: Seq<char>) -> Seq<char> {
    name + ":"@ + version + ":"@ + "download"@ + ":"@ + "1.0.0"@
}

/// The ledger key of the extraction task of one entity version.
pub open spec fn spec_extract_key(name: Seq<char>, version: Seq<char>) -> Seq<char> {
    name + ":"@ + version + ":"@ + "extract_crate"@ + ":"@ + "1.0.0"@
}

pub open spec fn spec_download_state(tasks: TasksTree, name: Seq<char>, version: Seq<char>) -> Option<
    Task,
> {
    tasks.inner.spec_get(spec_download_key(name, version))
}

pub open spec fn spec_extract_state(tasks: TasksTree, name: Seq<char>, version: Seq<char>) -> Option<
    Task,
> {
    tasks.inner.spec_get(spec_extract_key(name, version))
}

/// A task's result can be relied on only once it is marked complete.
pub open spec fn spec_is_complete(t: Option<Task>) -> bool {
    t matches Some(t) && t.state == TaskState::Complete
}

/// Whether a task in this recorded state is (re)scheduled: absent and
/// never-started tasks are, a task in progress only if it was started by an
/// earlier run than this one (stale from before a restart), a failed task
/// only while its attempt count is within the budget, and a complete task
/// never.
pub open spec fn spec_needs_work(t: Option<Task>, startup_time: u64, attempt_budget: u32) -> bool {
    match t {
        None => true,
        Some(t) => match t.state {
            TaskState::NotStarted => true,
            TaskState::InProgress { start_time } => start_time < startup_time,
            TaskState::Complete => false,
            TaskState::AttemptsWithFailure { count, last_error } => count < attempt_budget,
        },
    }
}

/// What the scheduler decides for one entity version.
pub enum PlannedKind {
    Nothing,
    Download,
    Extract,
}

/// The scheduling decision for one entity version: extraction runs only on
/// a completed download; otherwise the download itself is (re)scheduled if
/// it still needs work.
pub open spec fn spec_plan(
    tasks: TasksTree,
    name: Seq<char>,
    version: Seq<char>,
    startup_time: u64,
    attempt_budget: u32,
) -> PlannedKind {
    let d = spec_download_state(tasks, name, version);
    if spec_is_complete(d) {
        if spec_needs_work(spec_extract_state(tasks, name, version), startup_time, attempt_budget) {
            PlannedKind::Extract
        } else {
            PlannedKind::Nothing
        }
    } else {
        if spec_needs_work(d, startup_time, attempt_budget) {
            PlannedKind::Download
        } else {
            PlannedKind::Nothing
        }
    }
}

/// One planned unit of work, addressed to its stage queue.
pub enum PlannedTask {
    Nothing,
    Download(DownloadRequest),
    Extract(ExtractRequest),
}

fn needs_work(t: Option<&Task>, startup_time: u64, attempt_budget: u32) -> (r: bool)
    ensures
        r == spec_needs_work(
            match t {
                Some(x) => Some(*x),
                None => None,
            },
            startup_time,
            attempt_budget,
        ),
{
    match t {
        None => true,
        Some(t) => match &t.state {
            TaskState::NotStarted => true,
            TaskState::InProgress { start_time } => *start_time < startup_time,
            TaskState::Complete => false,
            TaskState::AttemptsWithFailure { count, last_error } => *count < attempt_budget,
        },
    }
}

/// Decide the outstanding work for one entity version.
pub fn plan_tasks(
    tasks: &TasksTree,
    crate_name: &String,
    version: &String,
    startup_time: u64,
    attempt_budget: u32,
) -> (r: PlannedTask)
    requires
        tasks.inner.wf(),
    ensures
        ({
            let plan = spec_plan(*tasks, crate_name@, version@, startup_time, attempt_budget);
            match r {
                PlannedTask::Nothing => plan is Nothing,
                PlannedTask::Download(d) => plan is Download && d.crate_name@ == crate_name@
                    && d.crate_version@ == version@,
                PlannedTask::Extract(e) => plan is Extract && e.crate_name@ == crate_name@
                    && e.crate_version@ == version@ && spec_download_state(
                    *tasks,
                    crate_name@,
                    version@,
                ) == Some(e.download_task),
            }
        }),
{
    let dkey = task_key(crate_name.as_str(), version.as_str(), "download", "1.0.0");
    let dstate = tasks.get(&dkey);
    let complete = match dstate {
        Some(t) => matches!(t.state, TaskState::Complete),
        None => false,
    };
    if complete {
        let ekey = task_key(crate_name.as_str(), version.as_str(), "extract_crate", "1.0.0");
        if needs_work(tasks.get(&ekey), startup_time, attempt_budget) {
            match dstate {
                Some(t) => PlannedTask::Extract(
                    ExtractRequest {
                        download_task: t.clone(),
                        crate_name: crate_name.clone(),
                        crate_version: version.clone(),
                    },
                ),
                None => PlannedTask::Nothing,
            }
        } else {
            PlannedTask::Nothing
        }
    } else {
        if needs_work(dstate, startup_time, attempt_budget) {
            PlannedTask::Download(
                DownloadRequest {
                    crate_name: crate_name.clone(),
                    crate_version: version.clone(),
                },
            )
        } else {
            PlannedTask::Nothing
        }
    }
}

/// A version is treated as yanked when the store says so, or when the store
/// has no record of it at all.
pub open spec fn spec_yanked_or_unknown(
    table: CrateVersionsTree,
    name: Seq<char>,
    version: Seq<char>,
) -> bool {
    match table.inner.spec_get(name + ":"@ + version) {
        None => true,
        Some(v) => v.kind == ChangeKind::Yanked,
    }
}

/// How many versions, counted from the oldest end, remain once the trailing
/// run of yanked-or-unknown versions is excluded.
pub open spec fn spec_active_len(
    table: CrateVersionsTree,
    name: Seq<char>,
    vs: Seq<Seq<char>>,
) -> int
    decreases vs.len(),
{
    if vs.len() == 0 {
        0
    } else if spec_yanked_or_unknown(table, name, vs.last()) {
        spec_active_len(table, name, vs.drop_last())
    } else {
        vs.len() as int
    }
}

/// Scanning from the newest version backwards, count the trailing run of
/// yanked-or-unknown versions and exclude it; processing resumes at the
/// newest version confirmed not yanked.
pub fn all_but_recently_yanked(
    crate_name: &String,
    versions: &Vec<String>,
    table: &CrateVersionsTree,
) -> (r: usize)
    requires
        table.inner.wf(),
    ensures
        r == spec_active_len(*table, crate_name@, versions@.map_values(|s: String| s@)),
        r <= versions@.len(),
{
    let ghost vs = versions@.map_values(|s: String| s@);
    let mut i: usize = versions.len();
    proof {
        assert(vs.take(i as int) =~= vs);
    }
    loop
        invariant
            table.inner.wf(),
            vs == versions@.map_values(|s: String| s@),
            i <= versions@.len(),
            spec_active_len(*table, crate_name@, vs) == spec_active_len(
                *table,
                crate_name@,
                vs.take(i as int),
            ),
        decreases i,
    {
        if i == 0 {
            proof {
                assert(vs.take(0) =~= Seq::<Seq<char>>::empty());
            }
            return 0;
        }
        let key = version_key(crate_name.as_str(), versions[i - 1].as_str());
        proof {
            assert(vs[i - 1] == versions@[i - 1]@);
        }
        let yanked = match table.get(&key) {
            None => true,
            Some(v) => v.kind == ChangeKind::Yanked,
        };
        proof {
            assert(vs.take(i as int).last() == vs[i - 1]);
            assert(yanked == spec_yanked_or_unknown(*table, crate_name@, vs.take(i as int).last()));
        }
        if yanked {
            proof {
                assert(vs.take(i as int).drop_last() =~= vs.take(i - 1));
            }
            i = i - 1;
        } else {
            proof {
                assert(spec_active_len(*table, crate_name@, vs.take(i as int)) == i);
            }
            return i;
        }
    }
}

/// The version strings in `vs[from..to]` whose plan is a download, oldest
/// first.
pub open spec fn spec_downloads(
    tasks: TasksTree,
    name: Seq<char>,
    vs: Seq<Seq<char>>,
    from: int,
    to: int,
    startup_time: u64,
    attempt_budget: u32,
) -> Seq<Seq<char>>
    decreases to - from,
{
    if to <= from {
        Seq::empty()
    } else {
        let rest = spec_downloads(tasks, name, vs, from, to - 1, startup_time, attempt_budget);
        if spec_plan(tasks, name, vs[to - 1], startup_time, attempt_budget) is Download {
            rest.push(vs[to - 1])
        } else {
            rest
        }
    }
}

/// The version strings in `vs[from..to]` whose plan is an extraction,
/// oldest first.
pub open spec fn spec_extracts(
    tasks: TasksTree,
    name: Seq<char>,
    vs: Seq<Seq<char>>,
    from: int,
    to: int,
    startup_time: u64,
    attempt_budget: u32,
) -> Seq<Seq<char>>
    decreases to - from,
{
    if to <= from {
        Seq::empty()
    } else {
        let rest = spec_extracts(tasks, name, vs, from, to - 1, startup_time, attempt_budget);
        if spec_plan(tasks, name, vs[to - 1], startup_time, attempt_budget) is Extract {
            rest.push(vs[to - 1])
        } else {
            rest
        }
    }
}

/// The new queue contents extend the old by one download request per
/// planned version, in order, each carrying the entity name and that
/// version.
pub open spec fn downloads_extended(
    items_old: Seq<DownloadRequest>,
    items_new: Seq<DownloadRequest>,
    name: Seq<char>,
    dls: Seq<Seq<char>>,
) -> bool {
    &&& items_new.len() == items_old.len() + dls.len()
    &&& forall|j: int| 0 <= j < items_old.len() ==> items_new[j] == items_old[j]
    &&& forall|j: int|
        #![trigger items_new[j]]
        items_old.len() <= j < items_new.len() ==> items_new[j].crate_name@ == name
            && items_new[j].crate_version@ == dls[j - items_old.len()]
}

/// The new queue contents extend the old by one extraction request per
/// planned version, in order, each carrying the entity name, that version,
/// and the completed download task it depends on.
pub open spec fn extracts_extended(
    items_old: Seq<ExtractRequest>,
    items_new: Seq<ExtractRequest>,
    tasks: TasksTree,
    name: Seq<char>,
    exs: Seq<Seq<char>>,
) -> bool {
    &&& items_new.len() == items_old.len() + exs.len()
    &&& forall|j: int| 0 <= j < items_old.len() ==> items_new[j] == items_old[j]
    &&& forall|j: int|
        #![trigger items_new[j]]
        items_old.len() <= j < items_new.len() ==> items_new[j].crate_name@ == name
            && items_new[j].crate_version@ == exs[j - items_old.len()] && spec_download_state(
            tasks,
            name,
            exs[j - items_old.len()],
        ) == Some(items_new[j].download_task)
}

proof fn lemma_downloads_extend(
    items_old: Seq<DownloadRequest>,
    items_new: Seq<DownloadRequest>,
    name: Seq<char>,
    dls: Seq<Seq<char>>,
    it: DownloadRequest,
    v: Seq<char>,
)
    requires
        downloads_extended(items_old, items_new, name, dls),
        it.crate_name@ == name,
        it.crate_version@ == v,
    ensures
        downloads_extended(items_old, items_new.push(it), name, dls.push(v)),
{
    assert forall|j: int|
        #![trigger items_new.push(it)[j]]
        items_old.len() <= j < items_new.push(it).len() implies items_new.push(
        it,
    )[j].crate_name@ == name && items_new.push(it)[j].crate_version@ == dls.push(v)[j
        - items_old.len()] by {
        if j < items_new.len() {
            assert(items_new.push(it)[j] == items_new[j]);
            assert(dls.push(v)[j - items_old.len()] == dls[j - items_old.len()]);
        } else {
            assert(items_new.push(it)[j] == it);
            assert(dls.push(v)[j - items_old.len()] == v);
        }
    }
    assert forall|j: int| 0 <= j < items_old.len() implies items_new.push(it)[j] == items_old[j] by {
        assert(items_new.push(it)[j] == items_new[j]);
    }
}

proof fn lemma_extracts_extend(
    items_old: Seq<ExtractRequest>,
    items_new: Seq<ExtractRequest>,
    tasks: TasksTree,
    name: Seq<char>,
    exs: Seq<Seq<char>>,
    it: ExtractRequest,
    v: Seq<char>,
)
    requires
        extracts_extended(items_old, items_new, tasks, name, exs),
        it.crate_name@ == name,
        it.crate_version@ == v,
        spec_download_state(tasks, name, v) == Some(it.download_task),
    ensures
        extracts_extended(items_old, items_new.push(it), tasks, name, exs.push(v)),
{
    assert forall|j: int|
        #![trigger items_new.push(it)[j]]
        items_old.len() <= j < items_new.push(it).len() implies items_new.push(
        it,
    )[j].crate_name@ == name && items_new.push(it)[j].crate_version@ == exs.push(v)[j
        - items_old.len()] && spec_download_state(tasks, name, exs.push(v)[j - items_old.len()])
        == Some(items_new.push(it)[j].download_task) by {
        if j < items_new.len() {
            assert(items_new.push(it)[j] == items_new[j]);
            assert(exs.push(v)[j - items_old.len()] == exs[j - items_old.len()]);
        } else {
            assert(items_new.push(it)[j] == it);
            assert(exs.push(v)[j - items_old.len()] == v);
        }
    }
    assert forall|j: int| 0 <= j < items_old.len() implies items_new.push(it)[j] == items_old[j] by {
        assert(items_new.push(it)[j] == items_new[j]);
    }
}

/// Schedule one entity's outstanding work from version index `from` on,
/// skipping the recently-yanked suffix, pushing each planned unit onto its
/// stage queue in version order, and stopping early — with everything
/// already pushed kept — as soon as a full queue refuses an item.
///
/// Where every version in scope has both its download and its extraction
/// marked complete, nothing is enqueued: see `lemma_scheduler_idempotent`.
pub fn schedule_entity(
    crate_name: &String,
    versions: &Vec<String>,
    from: usize,
    crate_versions: &CrateVersionsTree,
    tasks: &TasksTree,
    io_queue: &mut BoundedQueue<DownloadRequest>,
    cpu_queue: &mut BoundedQueue<ExtractRequest>,
    startup_time: u64,
    attempt_budget: u32,
) -> (r: usize)
    requires
        crate_versions.inner.wf(),
        tasks.inner.wf(),
        old(io_queue).wf(),
        old(cpu_queue).wf(),
        from <= versions@.len(),
    ensures
        final(io_queue).wf(),
        final(cpu_queue).wf(),
        final(io_queue).capacity == old(io_queue).capacity,
        final(cpu_queue).capacity == old(cpu_queue).capacity,
        ({
            let vs = versions@.map_values(|s: String| s@);
            let bound = spec_active_len(*crate_versions, crate_name@, vs);
            let dls = spec_downloads(
                *tasks,
                crate_name@,
                vs,
                from as int,
                r as int,
                startup_time,
                attempt_budget,
            );
            let exs = spec_extracts(
                *tasks,
                crate_name@,
                vs,
                from as int,
                r as int,
                startup_time,
                attempt_budget,
            );
            &&& (if bound <= from {
                r == from
            } else {
                from <= r <= bound
            })
            &&& downloads_extended(old(io_queue).items@, final(io_queue).items@, crate_name@, dls)
            &&& extracts_extended(
                old(cpu_queue).items@,
                final(cpu_queue).items@,
                *tasks,
                crate_name@,
                exs,
            )
            &&& (r < bound && from < bound ==> ((spec_plan(
                *tasks,
                crate_name@,
                vs[r as int],
                startup_time,
                attempt_budget,
            ) is Download && final(io_queue).is_full()) || (spec_plan(
                *tasks,
                crate_name@,
                vs[r as int],
                startup_time,
                attempt_budget,
            ) is Extract && final(cpu_queue).is_full())))
        }),
{
    let ghost vs = versions@.map_values(|s: String| s@);
    let bound = all_but_recently_yanked(crate_name, versions, crate_versions);
    if bound <= from {
        return from;
    }
    let mut i: usize = from;
    while i < bound
        invariant
            crate_versions.inner.wf(),
            tasks.inner.wf(),
            io_queue.wf(),
            cpu_queue.wf(),
            io_queue.capacity == old(io_queue).capacity,
            cpu_queue.capacity == old(cpu_queue).capacity,
            vs == versions@.map_values(|s: String| s@),
            bound == spec_active_len(*crate_versions, crate_name@, vs),
            bound <= versions@.len(),
            from <= i <= bound,
            downloads_extended(
                old(io_queue).items@,
                io_queue.items@,
                crate_name@,
                spec_downloads(
                    *tasks,
                    crate_name@,
                    vs,
                    from as int,
                    i as int,
                    startup_time,
                    attempt_budget,
                ),
            ),
            extracts_extended(
                old(cpu_queue).items@,
                cpu_queue.items@,
                *tasks,
                crate_name@,
                spec_extracts(
                    *tasks,
                    crate_name@,
                    vs,
                    from as int,
                    i as int,
                    startup_time,
                    attempt_budget,
                ),
            ),
        decreases bound - i,
    {
        let ghost dls_i = spec_downloads(
            *tasks,
            crate_name@,
            vs,
            from as int,
            i as int,
            startup_time,
            attempt_budget,
        );
        let ghost exs_i = spec_extracts(
            *tasks,
            crate_name@,
            vs,
            from as int,
            i as int,
            startup_time,
            attempt_budget,
        );
        proof {
            assert(vs[i as int] == versions@[i as int]@);
        }
        let plan = plan_tasks(tasks, crate_name, &versions[i], startup_time, attempt_budget);
        match plan {
            PlannedTask::Nothing => {
                i += 1;
                proof {
                    assert(spec_downloads(
                        *tasks,
                        crate_name@,
                        vs,
                        from as int,
                        i as int,
                        startup_time,
                        attempt_budget,
                    ) == dls_i);
                    assert(spec_extracts(
                        *tasks,
                        crate_name@,
                        vs,
                        from as int,
                        i as int,
                        startup_time,
                        attempt_budget,
                    ) == exs_i);
                }
            },
            PlannedTask::Download(d) => {
                let ghost dv = d;
                let ghost pre_io = io_queue.items@;
                match io_queue.try_send(d) {
                    Ok(()) => {
                        i += 1;
                        proof {
                            lemma_downloads_extend(
                                old(io_queue).items@,
                                pre_io,
                                crate_name@,
                                dls_i,
                                dv,
                                vs[i - 1],
                            );
                            assert(spec_downloads(
                                *tasks,
                                crate_name@,
                                vs,
                                from as int,
                                i as int,
                                startup_time,
                                attempt_budget,
                            ) == dls_i.push(vs[i - 1]));
                            assert(spec_extracts(
                                *tasks,
                                crate_name@,
                                vs,
                                from as int,
                                i as int,
                                startup_time,
                                attempt_budget,
                            ) == exs_i);
                        }
                    },
                    Err(_) => {
                        return i;
                    },
                }
            },
            PlannedTask::Extract(e) => {
                let ghost ev = e;
                let ghost pre_cpu = cpu_queue.items@;
                match cpu_queue.try_send(e) {
                    Ok(()) => {
                        i += 1;
                        proof {
                            lemma_extracts_extend(
                                old(cpu_queue).items@,
                                pre_cpu,
                                *tasks,
                                crate_name@,
                                exs_i,
                                ev,
                                vs[i - 1],
                            );
                            assert(spec_extracts(
                                *tasks,
                                crate_name@,
                                vs,
                                from as int,
                                i as int,
                                startup_time,
                                attempt_budget,
                            ) == exs_i.push(vs[i - 1]));
                            assert(spec_downloads(
                                *tasks,
                                crate_name@,
                                vs,
                                from as int,
                                i as int,
                                startup_time,
                                attempt_budget,
                            ) == dls_i);
                        }
                    },
                    Err(_) => {
                        return i;
                    },
                }
            },
        }
    }
    i
}


/// Idempotence of the scheduler: over an entity whose tasks are all marked
/// complete, nothing is planned, so re-running it enqueues zero new tasks.
pub proof fn lemma_scheduler_idempotent(
    tasks: TasksTree,
    name: Seq<char>,
    vs: Seq<Seq<char>>,
    from: int,
    to: int,
    startup_time: u64,
    attempt_budget: u32,
)
    requires
        forall|i: int|
            from <= i < to ==> spec_is_complete(#[trigger] spec_download_state(tasks, name, vs[i]))
                && spec_is_complete(spec_extract_state(tasks, name, vs[i])),
    ensures
        spec_downloads(tasks, name, vs, from, to, startup_time, attempt_budget)
            == Seq::<Seq<char>>::empty(),
        spec_extracts(tasks, name, vs, from, to, startup_time, attempt_budget)
            == Seq::<Seq<char>>::empty(),
    decreases to - from,
{
    if to > from {
        lemma_scheduler_idempotent(tasks, name, vs, from, to - 1, startup_time, attempt_budget);
        assert(spec_plan(tasks, name, vs[to - 1], startup_time, attempt_budget) is Nothing);
    }
}

/// Where a checkpoint pass over a chunk stands: the next entity to
/// schedule, and the version index to resume it at.
pub struct Cursor {
    pub entity: usize,
    pub version: usize,
}

/// The range split of the planned downloads: planning `[0, to)` is
/// planning `[0, mid)` and then `[mid, to)`.
proof fn lemma_downloads_range_concat(
    tasks: TasksTree,
    name: Seq<char>,
    vs: Seq<Seq<char>>,
    mid: int,
    to: int,
    startup_time: u64,
    attempt_budget: u32,
)
    requires
        0 <= mid <= to,
    ensures
        spec_downloads(tasks, name, vs, 0, to, startup_time, attempt_budget) == spec_downloads(
            tasks,
            name,
            vs,
            0,
            mid,
            startup_time,
            attempt_budget,
        ) + spec_downloads(tasks, name, vs, mid, to, startup_time, attempt_budget),
    decreases to - mid,
{
    let a = spec_downloads(tasks, name, vs, 0, mid, startup_time, attempt_budget);
    if to <= mid {
        assert(a + Seq::<Seq<char>>::empty() =~= a);
    } else {
        lemma_downloads_range_concat(tasks, name, vs, mid, to - 1, startup_time, attempt_budget);
        let b = spec_downloads(tasks, name, vs, mid, to - 1, startup_time, attempt_budget);
        if spec_plan(tasks, name, vs[to - 1], startup_time, attempt_budget) is Download {
            assert((a + b).push(vs[to - 1]) =~= a + b.push(vs[to - 1]));
        }
    }
}

/// The range split of the planned extractions.
proof fn lemma_extracts_range_concat(
    tasks: TasksTree,
    name: Seq<char>,
    vs: Seq<Seq<char>>,
    mid: int,
    to: int,
    startup_time: u64,
    attempt_budget: u32,
)
    requires
        0 <= mid <= to,
    ensures
        spec_extracts(tasks, name, vs, 0, to, startup_time, attempt_budget) == spec_extracts(
            tasks,
            name,
            vs,
            0,
            mid,
            startup_time,
            attempt_budget,
        ) + spec_extracts(tasks, name, vs, mid, to, startup_time, attempt_budget),
    decreases to - mid,
{
    let a = spec_extracts(tasks, name, vs, 0, mid, startup_time, attempt_budget);
    if to <= mid {
        assert(a + Seq::<Seq<char>>::empty() =~= a);
    } else {
        lemma_extracts_range_concat(tasks, name, vs, mid, to - 1, startup_time, attempt_budget);
        let b = spec_extracts(tasks, name, vs, mid, to - 1, startup_time, attempt_budget);
        if spec_plan(tasks, name, vs[to - 1], startup_time, attempt_budget) is Extract {
            assert((a + b).push(vs[to - 1]) =~= a + b.push(vs[to - 1]));
        }
    }
}

/// The (entity, version) pairs planned for download over one entity's
/// versions `[0, to)`, `to` clamped to the entity's active range.
pub open spec fn entity_downloads(
    tasks: TasksTree,
    crate_versions: CrateVersionsTree,
    name: Seq<char>,
    vs: Seq<Seq<char>>,
    to: int,
    startup_time: u64,
    attempt_budget: u32,
) -> Seq<(Seq<char>, Seq<char>)> {
    let bound = spec_active_len(crate_versions, name, vs);
    let clamped = if to < 0 {
        0
    } else if to > bound {
        bound
    } else {
        to
    };
    spec_downloads(tasks, name, vs, 0, clamped, startup_time, attempt_budget).map_values(
        |v: Seq<char>| (name, v),
    )
}

/// The (entity, version) pairs planned for extraction over one entity's
/// versions `[0, to)`.
pub open spec fn entity_extracts(
    tasks: TasksTree,
    crate_versions: CrateVersionsTree,
    name: Seq<char>,
    vs: Seq<Seq<char>>,
    to: int,
    startup_time: u64,
    attempt_budget: u32,
) -> Seq<(Seq<char>, Seq<char>)> {
    let bound = spec_active_len(crate_versions, name, vs);
    let clamped = if to < 0 {
        0
    } else if to > bound {
        bound
    } else {
        to
    };
    spec_extracts(tasks, name, vs, 0, clamped, startup_time, attempt_budget).map_values(
        |v: Seq<char>| (name, v),
    )
}

/// The downloads planned over the fully handled entities `[0, e)`.
pub open spec fn chunk_downloads(
    tasks: TasksTree,
    crate_versions: CrateVersionsTree,
    krates: Seq<(String, Crate)>,
    e: int,
    startup_time: u64,
    attempt_budget: u32,
) -> Seq<(Seq<char>, Seq<char>)>
    decreases e,
{
    if e <= 0 {
        Seq::empty()
    } else {
        chunk_downloads(tasks, crate_versions, krates, e - 1, startup_time, attempt_budget)
            + entity_downloads(
            tasks,
            crate_versions,
            krates[e - 1].0@,
            krates[e - 1].1@,
            krates[e - 1].1@.len() as int,
            startup_time,
            attempt_budget,
        )
    }
}

/// The extractions planned over the fully handled entities `[0, e)`.
pub open spec fn chunk_extracts(
    tasks: TasksTree,
    crate_versions: CrateVersionsTree,
    krates: Seq<(String, Crate)>,
    e: int,
    startup_time: u64,
    attempt_budget: u32,
) -> Seq<(Seq<char>, Seq<char>)>
    decreases e,
{
    if e <= 0 {
        Seq::empty()
    } else {
        chunk_extracts(tasks, crate_versions, krates, e - 1, startup_time, attempt_budget)
            + entity_extracts(
            tasks,
            crate_versions,
            krates[e - 1].0@,
            krates[e - 1].1@,
            krates[e - 1].1@.len() as int,
            startup_time,
            attempt_budget,
        )
    }
}

/// Everything planned for download from the start of the chunk up to a
/// cursor: the full entities before it, and the cursor entity up to its
/// version index.
pub open spec fn cum_downloads(
    tasks: TasksTree,
    crate_versions: CrateVersionsTree,
    krates: Seq<(String, Crate)>,
    entity: int,
    version: int,
    startup_time: u64,
    attempt_budget: u32,
) -> Seq<(Seq<char>, Seq<char>)> {
    let full = chunk_downloads(tasks, crate_versions, krates, entity, startup_time, attempt_budget);
    if 0 <= entity < krates.len() {
        full + entity_downloads(
            tasks,
            crate_versions,
            krates[entity].0@,
            krates[entity].1@,
            version,
            startup_time,
            attempt_budget,
        )
    } else {
        full
    }
}

/// Everything planned for extraction up to a cursor.
pub open spec fn cum_extracts(
    tasks: TasksTree,
    crate_versions: CrateVersionsTree,
    krates: Seq<(String, Crate)>,
    entity: int,
    version: int,
    startup_time: u64,
    attempt_budget: u32,
) -> Seq<(Seq<char>, Seq<char>)> {
    let full = chunk_extracts(tasks, crate_versions, krates, entity, startup_time, attempt_budget);
    if 0 <= entity < krates.len() {
        full + entity_extracts(
            tasks,
            crate_versions,
            krates[entity].0@,
            krates[entity].1@,
            version,
            startup_time,
            attempt_budget,
        )
    } else {
        full
    }
}

/// The new queue contents extend the old by one download request per
/// planned (entity, version) pair, in order.
pub open spec fn queue_holds_downloads(
    items_old: Seq<DownloadRequest>,
    items_new: Seq<DownloadRequest>,
    added: Seq<(Seq<char>, Seq<char>)>,
) -> bool {
    &&& items_new.len() == items_old.len() + added.len()
    &&& forall|j: int| 0 <= j < items_old.len() ==> items_new[j] == items_old[j]
    &&& forall|j: int|
        #![trigger items_new[j]]
        items_old.len() <= j < items_new.len() ==> items_new[j].crate_name@ == added[j
            - items_old.len()].0 && items_new[j].crate_version@ == added[j - items_old.len()].1
}

/// The new queue contents extend the old by one extraction request per
/// planned (entity, version) pair, each carrying the completed download
/// task it depends on.
pub open spec fn queue_holds_extracts(
    items_old: Seq<ExtractRequest>,
    items_new: Seq<ExtractRequest>,
    tasks: TasksTree,
    added: Seq<(Seq<char>, Seq<char>)>,
) -> bool {
    &&& items_new.len() == items_old.len() + added.len()
    &&& forall|j: int| 0 <= j < items_old.len() ==> items_new[j] == items_old[j]
    &&& forall|j: int|
        #![trigger items_new[j]]
        items_old.len() <= j < items_new.len() ==> items_new[j].crate_name@ == added[j
            - items_old.len()].0 && items_new[j].crate_version@ == added[j - items_old.len()].1
            && spec_download_state(tasks, added[j - items_old.len()].0, added[j - items_old.len()].1)
            == Some(items_new[j].download_task)
}

proof fn lemma_queue_holds_downloads_compose(
    items_old: Seq<DownloadRequest>,
    items_mid: Seq<DownloadRequest>,
    items_new: Seq<DownloadRequest>,
    added: Seq<(Seq<char>, Seq<char>)>,
    name: Seq<char>,
    dls: Seq<Seq<char>>,
)
    requires
        queue_holds_downloads(items_old, items_mid, added),
        downloads_extended(items_mid, items_new, name, dls),
    ensures
        queue_holds_downloads(
            items_old,
            items_new,
            added + dls.map_values(|v: Seq<char>| (name, v)),
        ),
{
    let a2 = added + dls.map_values(|v: Seq<char>| (name, v));
    assert forall|j: int| 0 <= j < items_old.len() implies items_new[j] == items_old[j] by {
        assert(items_new[j] == items_mid[j]);
    }
    assert forall|j: int|
        #![trigger items_new[j]]
        items_old.len() <= j < items_new.len() implies items_new[j].crate_name@ == a2[j
        - items_old.len()].0 && items_new[j].crate_version@ == a2[j - items_old.len()].1 by {
        if j < items_mid.len() {
            assert(items_new[j] == items_mid[j]);
            assert(a2[j - items_old.len()] == added[j - items_old.len()]);
        } else {
            assert(a2[j - items_old.len()] == dls.map_values(|v: Seq<char>| (name, v))[j
                - items_mid.len()]);
        }
    }
}

proof fn lemma_queue_holds_extracts_compose(
    items_old: Seq<ExtractRequest>,
    items_mid: Seq<ExtractRequest>,
    items_new: Seq<ExtractRequest>,
    tasks: TasksTree,
    added: Seq<(Seq<char>, Seq<char>)>,
    name: Seq<char>,
    exs: Seq<Seq<char>>,
)
    requires
        queue_holds_extracts(items_old, items_mid, tasks, added),
        extracts_extended(items_mid, items_new, tasks, name, exs),
    ensures
        queue_holds_extracts(
            items_old,
            items_new,
            tasks,
            added + exs.map_values(|v: Seq<char>| (name, v)),
        ),
{
    let a2 = added + exs.map_values(|v: Seq<char>| (name, v));
    assert forall|j: int| 0 <= j < items_old.len() implies items_new[j] == items_old[j] by {
        assert(items_new[j] == items_mid[j]);
    }
    assert forall|j: int|
        #![trigger items_new[j]]
        items_old.len() <= j < items_new.len() implies items_new[j].crate_name@ == a2[j
        - items_old.len()].0 && items_new[j].crate_version@ == a2[j - items_old.len()].1
        && spec_download_state(tasks, a2[j - items_old.len()].0, a2[j - items_old.len()].1)
        == Some(items_new[j].download_task) by {
        if j < items_mid.len() {
            assert(items_new[j] == items_mid[j]);
            assert(a2[j - items_old.len()] == added[j - items_old.len()]);
        } else {
            assert(a2[j - items_old.len()] == exs.map_values(|v: Seq<char>| (name, v))[j
                - items_mid.len()]);
        }
    }
}

/// One checkpoint pass over a chunk of entities: walk them in order from
/// the cursor, scheduling each entity's outstanding work onto the stage
/// queues through `schedule_entity`, and stop — returning where to resume —
/// as soon as a full queue refuses an item. The queues grow by exactly the
/// work planned between the two cursors, in order: backpressure is the
/// pass's only brake, and it never drops or reorders work.
#[verifier::rlimit(60)]
pub fn process(
    krates: &Vec<(String, Crate)>,
    start: Cursor,
    crate_versions: &CrateVersionsTree,
    tasks: &TasksTree,
    io_queue: &mut BoundedQueue<DownloadRequest>,
    cpu_queue: &mut BoundedQueue<ExtractRequest>,
    startup_time: u64,
    attempt_budget: u32,
) -> (r: Cursor)
    requires
        crate_versions.inner.wf(),
        tasks.inner.wf(),
        old(io_queue).wf(),
        old(cpu_queue).wf(),
        start.entity <= krates@.len(),
    ensures
        final(io_queue).wf(),
        final(cpu_queue).wf(),
        final(io_queue).capacity == old(io_queue).capacity,
        final(cpu_queue).capacity == old(cpu_queue).capacity,
        start.entity <= r.entity <= krates@.len(),
        r.entity < krates@.len() ==> (final(io_queue).is_full() || final(cpu_queue).is_full()),
        ({
            let dl0 = cum_downloads(
                *tasks,
                *crate_versions,
                krates@,
                start.entity as int,
                start.version as int,
                startup_time,
                attempt_budget,
            );
            let dl1 = cum_downloads(
                *tasks,
                *crate_versions,
                krates@,
                r.entity as int,
                r.version as int,
                startup_time,
                attempt_budget,
            );
            let ex0 = cum_extracts(
                *tasks,
                *crate_versions,
                krates@,
                start.entity as int,
                start.version as int,
                startup_time,
                attempt_budget,
            );
            let ex1 = cum_extracts(
                *tasks,
                *crate_versions,
                krates@,
                r.entity as int,
                r.version as int,
                startup_time,
                attempt_budget,
            );
            &&& queue_holds_downloads(
                old(io_queue).items@,
                final(io_queue).items@,
                dl1.skip(dl0.len() as int),
            )
            &&& dl1.take(dl0.len() as int) == dl0
            &&& queue_holds_extracts(
                old(cpu_queue).items@,
                final(cpu_queue).items@,
                *tasks,
                ex1.skip(ex0.len() as int),
            )
            &&& ex1.take(ex0.len() as int) == ex0
        }),
{
    let ghost dl0 = cum_downloads(
        *tasks,
        *crate_versions,
        krates@,
        start.entity as int,
        start.version as int,
        startup_time,
        attempt_budget,
    );
    let ghost ex0 = cum_extracts(
        *tasks,
        *crate_versions,
        krates@,
        start.entity as int,
        start.version as int,
        startup_time,
        attempt_budget,
    );
    let ghost mut added_dl: Seq<(Seq<char>, Seq<char>)> = Seq::empty();
    let ghost mut added_ex: Seq<(Seq<char>, Seq<char>)> = Seq::empty();
    let mut e: usize = start.entity;
    proof {
        assert(queue_holds_downloads(io_queue.items@, io_queue.items@, Seq::empty()));
        assert(queue_holds_extracts(cpu_queue.items@, cpu_queue.items@, *tasks, Seq::empty()));
        assert(dl0 + added_dl =~= dl0);
        assert(ex0 + added_ex =~= ex0);
    }
    while e < krates.len()
        invariant
            crate_versions.inner.wf(),
            tasks.inner.wf(),
            io_queue.wf(),
            cpu_queue.wf(),
            io_queue.capacity == old(io_queue).capacity,
            cpu_queue.capacity == old(cpu_queue).capacity,
            start.entity <= e <= krates@.len(),
            dl0 == cum_downloads(
                *tasks,
                *crate_versions,
                krates@,
                start.entity as int,
                start.version as int,
                startup_time,
                attempt_budget,
            ),
            ex0 == cum_extracts(
                *tasks,
                *crate_versions,
                krates@,
                start.entity as int,
                start.version as int,
                startup_time,
                attempt_budget,
            ),
            queue_holds_downloads(old(io_queue).items@, io_queue.items@, added_dl),
            queue_holds_extracts(old(cpu_queue).items@, cpu_queue.items@, *tasks, added_ex),
            cum_downloads(
                *tasks,
                *crate_versions,
                krates@,
                e as int,
                spec_resume_version(start, e as int),
                startup_time,
                attempt_budget,
            ) == dl0 + added_dl,
            cum_extracts(
                *tasks,
                *crate_versions,
                krates@,
                e as int,
                spec_resume_version(start, e as int),
                startup_time,
                attempt_budget,
            ) == ex0 + added_ex,
        decreases krates@.len() - e,
    {
        let name = &krates[e].0;
        let krate = &krates[e].1;
        let versions = &krate.versions;
        let mut from: usize = if e == start.entity {
            start.version
        } else {
            0
        };
        if from > versions.len() {
            from = versions.len();
        }
        let ghost vs = versions@.map_values(|s: String| s@);
        let ghost bound_s = spec_active_len(*crate_versions, name@, vs);
        proof {
            assert(name@ == krates@[e as int].0@);
            assert(krate@ == krates@[e as int].1@);
            assert(vs == krate@);
            lemma_active_len_at_most(*crate_versions, name@, vs);
            assert(entity_downloads(
                *tasks,
                *crate_versions,
                name@,
                vs,
                spec_resume_version(start, e as int),
                startup_time,
                attempt_budget,
            ) == entity_downloads(
                *tasks,
                *crate_versions,
                name@,
                vs,
                from as int,
                startup_time,
                attempt_budget,
            ));
            assert(entity_extracts(
                *tasks,
                *crate_versions,
                name@,
                vs,
                spec_resume_version(start, e as int),
                startup_time,
                attempt_budget,
            ) == entity_extracts(
                *tasks,
                *crate_versions,
                name@,
                vs,
                from as int,
                startup_time,
                attempt_budget,
            ));
        }
        let bound = all_but_recently_yanked(name, versions, crate_versions);
        let ghost pre_io = io_queue.items@;
        let ghost pre_cpu = cpu_queue.items@;
        let scheduled_to = schedule_entity(
            name,
            versions,
            from,
            crate_versions,
            tasks,
            io_queue,
            cpu_queue,
            startup_time,
            attempt_budget,
        );
        proof {
            let fc = if from as int > bound_s {
                bound_s
            } else {
                from as int
            };
            let rc = if scheduled_to as int > bound_s {
                bound_s
            } else {
                scheduled_to as int
            };
            assert(fc <= rc);
            lemma_downloads_range_concat(
                *tasks,
                name@,
                vs,
                fc,
                rc,
                startup_time,
                attempt_budget,
            );
            lemma_extracts_range_concat(*tasks, name@, vs, fc, rc, startup_time, attempt_budget);
            let d_step = spec_downloads(*tasks, name@, vs, fc, rc, startup_time, attempt_budget);
            let x_step = spec_extracts(*tasks, name@, vs, fc, rc, startup_time, attempt_budget);
            assert(spec_downloads(*tasks, name@, vs, from as int, scheduled_to as int, startup_time, attempt_budget)
                == d_step);
            assert(spec_extracts(*tasks, name@, vs, from as int, scheduled_to as int, startup_time, attempt_budget)
                == x_step);
            lemma_queue_holds_downloads_compose(
                old(io_queue).items@,
                pre_io,
                io_queue.items@,
                added_dl,
                name@,
                d_step,
            );
            lemma_queue_holds_extracts_compose(
                old(cpu_queue).items@,
                pre_cpu,
                cpu_queue.items@,
                *tasks,
                added_ex,
                name@,
                x_step,
            );
            assert(entity_downloads(*tasks, *crate_versions, name@, vs, scheduled_to as int, startup_time, attempt_budget)
                =~= entity_downloads(*tasks, *crate_versions, name@, vs, from as int, startup_time, attempt_budget)
                + d_step.map_values(|v: Seq<char>| (name@, v)));
            assert(entity_extracts(*tasks, *crate_versions, name@, vs, scheduled_to as int, startup_time, attempt_budget)
                =~= entity_extracts(*tasks, *crate_versions, name@, vs, from as int, startup_time, attempt_budget)
                + x_step.map_values(|v: Seq<char>| (name@, v)));
            added_dl = added_dl + d_step.map_values(|v: Seq<char>| (name@, v));
            added_ex = added_ex + x_step.map_values(|v: Seq<char>| (name@, v));
            assert(cum_downloads(*tasks, *crate_versions, krates@, e as int, scheduled_to as int, startup_time, attempt_budget)
                =~= dl0 + added_dl);
            assert(cum_extracts(*tasks, *crate_versions, krates@, e as int, scheduled_to as int, startup_time, attempt_budget)
                =~= ex0 + added_ex);
        }
        if from < bound && scheduled_to < bound {
            return Cursor { entity: e, version: scheduled_to };
        }
        proof {
            assert(entity_downloads(*tasks, *crate_versions, name@, vs, scheduled_to as int, startup_time, attempt_budget)
                == entity_downloads(*tasks, *crate_versions, name@, vs, vs.len() as int, startup_time, attempt_budget));
            assert(entity_extracts(*tasks, *crate_versions, name@, vs, scheduled_to as int, startup_time, attempt_budget)
                == entity_extracts(*tasks, *crate_versions, name@, vs, vs.len() as int, startup_time, attempt_budget));
            assert(cum_downloads(*tasks, *crate_versions, krates@, e + 1, spec_resume_version(start, e + 1), startup_time, attempt_budget)
                =~= dl0 + added_dl);
            assert(cum_extracts(*tasks, *crate_versions, krates@, e + 1, spec_resume_version(start, e + 1), startup_time, attempt_budget)
                =~= ex0 + added_ex);
        }
        e += 1;
    }
    proof {
        assert((dl0 + added_dl).skip(dl0.len() as int) =~= added_dl);
        assert((dl0 + added_dl).take(dl0.len() as int) =~= dl0);
        assert((ex0 + added_ex).skip(ex0.len() as int) =~= added_ex);
        assert((ex0 + added_ex).take(ex0.len() as int) =~= ex0);
    }
    Cursor { entity: e, version: 0 }
}

/// The version index a pass resumes an entity at: the start cursor's for
/// its own entity, the beginning for every later one.
pub open spec fn spec_resume_version(start: Cursor, e: int) -> int {
    if e == start.entity {
        start.version as int
    } else {
        0
    }
}

/// An entity's active range never exceeds its version list.
proof fn lemma_active_len_at_most(
    table: CrateVersionsTree,
    name: Seq<char>,
    vs: Seq<Seq<char>>,
)
    ensures
        0 <= spec_active_len(table, name, vs) <= vs.len(),
    decreases vs.len(),
{
    if vs.len() > 0 && spec_yanked_or_unknown(table, name, vs.last()) {
        lemma_active_len_at_most(table, name, vs.drop_last());
    }
}

} // verus!
