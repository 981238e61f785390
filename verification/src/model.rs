//! The data model: tasks with their execution state, task results, entities
//! (crates) with their versions and yank flags, and per-day run metadata.
//! Every type carries its merge semantics: the reduction that combines a new
//! value with a previously stored one into the value to persist.

use vstd::prelude::*;
use vstd::string::StringExecFns;

verus! {

/// The execution state of one task, the unit of idempotency and retry.
pub enum TaskState {
    NotStarted,
    InProgress { start_time: u64 },
    Complete,
    AttemptsWithFailure { count: u32, last_error: String },
}

impl Clone for TaskState {
    fn clone(&self) -> (r: Self)
        ensures
            r == *self,
    {
        match self {
            TaskState::NotStarted => TaskState::NotStarted,
            TaskState::InProgress { start_time } => TaskState::InProgress { start_time: *start_time },
            TaskState::Complete => TaskState::Complete,
            TaskState::AttemptsWithFailure { count, last_error } => TaskState::AttemptsWithFailure {
                count: *count,
                last_error: last_error.clone(),
            },
        }
    }
}

impl Default for TaskState {
    fn default() -> (r: Self)
        ensures
            r == TaskState::NotStarted,
    {
        TaskState::NotStarted
    }
}

/// One (process, process version) unit of work applied to one entity version.
/// Its store key is content-addressed by the 4-tuple
/// `entity:version:process:process_version`, so reprocessing with a new
/// process version is a distinct task.
pub struct Task {
    /// Timestamp (milliseconds) at which the task was last stored.
    pub stored_at: u64,
    pub process: String,
    pub version: String,
    pub state: TaskState,
}

impl Clone for Task {
    fn clone(&self) -> (r: Self)
        ensures
            r == *self,
    {
        Task {
            stored_at: self.stored_at,
            process: self.process.clone(),
            version: self.version.clone(),
            state: self.state.clone(),
        }
    }
}

impl Task {
    /// The full store key, `entity:version:process:process_version`.
    pub fn fq_key(&self, crate_name: &str, crate_version: &str) -> (r: String)
        ensures
            r@ == crate_name@ + ":"@ + crate_version@ + ":"@ + self.process@ + ":"@ + self.version@,
    {
        task_key(crate_name, crate_version, self.process.as_str(), self.version.as_str())
    }

    /// Merging a task into a stored one keeps the incoming identity and
    /// state; the store stamps `stored_at` itself.
    pub fn merge(&self, new: &Task) -> (r: Task)
        ensures
            r.stored_at == self.stored_at,
            r.process == new.process,
            r.version == new.version,
            r.state == new.state,
    {
        Task {
            stored_at: self.stored_at,
            process: new.process.clone(),
            version: new.version.clone(),
            state: new.state.clone(),
        }
    }
}

/// The composite store key `entity:version:process:process_version`.
pub fn task_key(crate_name: &str, crate_version: &str, process: &str, process_version: &str) -> (r: String)
    ensures
        r@ == crate_name@ + ":"@ + crate_version@ + ":"@ + process@ + ":"@ + process_version@,
{
    let mut r = String::new();
    r.append(crate_name);
    r.append(":");
    r.append(crate_version);
    r.append(":");
    r.append(process);
    r.append(":");
    r.append(process_version);
    r
}

/// Metadata of one archive entry: its path bytes, declared size, and the
/// archive's entry type byte.
pub struct TarHeader {
    pub path: Vec<u8>,
    pub size: u64,
    pub entry_type: u8,
}

pub ghost struct TarHeaderView {
    pub path: Seq<u8>,
    pub size: u64,
    pub entry_type: u8,
}

impl View for TarHeader {
    type V = TarHeaderView;

    open spec fn view(&self) -> TarHeaderView {
        TarHeaderView { path: self.path@, size: self.size, entry_type: self.entry_type }
    }
}

impl Clone for TarHeader {
    fn clone(&self) -> (r: Self)
        ensures
            r@ == self@,
    {
        TarHeader { path: self.path.clone(), size: self.size, entry_type: self.entry_type }
    }
}

/// One archive entry selected for content capture: its metadata and the
/// stored bytes (possibly capped).
pub struct SelectedEntry {
    pub meta: TarHeader,
    pub content: Vec<u8>,
}

pub ghost struct SelectedEntryView {
    pub meta: TarHeaderView,
    pub content: Seq<u8>,
}

impl View for SelectedEntry {
    type V = SelectedEntryView;

    open spec fn view(&self) -> SelectedEntryView {
        SelectedEntryView { meta: self.meta@, content: self.content@ }
    }
}

impl Clone for SelectedEntry {
    fn clone(&self) -> (r: Self)
        ensures
            r@ == self@,
    {
        SelectedEntry { meta: self.meta.clone(), content: self.content.clone() }
    }
}

/// The payload produced by a completed task.
pub enum TaskResult {
    /// A downloaded artifact of the given byte length.
    Download { content_length: u64 },
    /// An unpacked crate archive: metadata for every entry, plus the
    /// selected (metadata, content) pairs.
    ExplodedCrate { entries_meta_data: Vec<TarHeader>, selected_entries: Vec<SelectedEntry> },
}

pub ghost enum TaskResultView {
    Download { content_length: u64 },
    ExplodedCrate { entries_meta_data: Seq<TarHeaderView>, selected_entries: Seq<SelectedEntryView> },
}

impl View for TaskResult {
    type V = TaskResultView;

    open spec fn view(&self) -> TaskResultView {
        match self {
            TaskResult::Download { content_length } => TaskResultView::Download {
                content_length: *content_length,
            },
            TaskResult::ExplodedCrate { entries_meta_data, selected_entries } => TaskResultView::ExplodedCrate {
                entries_meta_data: entries_meta_data@.map_values(|h: TarHeader| h@),
                selected_entries: selected_entries@.map_values(|e: SelectedEntry| e@),
            },
        }
    }
}

/// Whether a registry change left a version usable or yanked.
#[derive(Clone, Copy, PartialEq, Eq, Structural, Debug)]
pub enum ChangeKind {
    Added,
    Yanked,
}

/// One published version of an entity, with its yank flag.
pub struct CrateVersion {
    pub name: String,
    pub version: String,
    pub kind: ChangeKind,
}

impl Clone for CrateVersion {
    fn clone(&self) -> (r: Self)
        ensures
            r == *self,
    {
        CrateVersion { name: self.name.clone(), version: self.version.clone(), kind: self.kind }
    }
}

impl CrateVersion {
    /// The store key `name:version` of this entity version.
    pub fn key(&self) -> (r: String)
        ensures
            r@ == self.name@ + ":"@ + self.version@,
    {
        version_key(self.name.as_str(), self.version.as_str())
    }
}

/// The composite store key `name:version` of one entity version.
pub fn version_key(crate_name: &str, crate_version: &str) -> (r: String)
    ensures
        r@ == crate_name@ + ":"@ + crate_version@,
{
    let mut r = String::new();
    r.append(crate_name);
    r.append(":");
    r.append(crate_version);
    r
}

/// An entity: the ordered sequence of its version names, insertion order
/// equal to registry order.
pub struct Crate {
    pub versions: Vec<String>,
}

impl View for Crate {
    type V = Seq<Seq<char>>;

    open spec fn view(&self) -> Seq<Seq<char>> {
        self.versions@.map_values(|s: String| s@)
    }
}

impl Clone for Crate {
    fn clone(&self) -> (r: Self)
        ensures
            r@ == self@,
    {
        let versions = self.versions.clone();
        assert(versions@ =~= self.versions@);
        assert(versions@.map_values(|s: String| s@) =~= self.versions@.map_values(|s: String| s@));
        Crate { versions }
    }
}

/// What merging one more version into a stored entity yields: the version
/// list is extended only if the version is not already present.
pub open spec fn spec_crate_merge(versions: Seq<Seq<char>>, version: Seq<char>) -> Seq<Seq<char>> {
    if versions.contains(version) {
        versions
    } else {
        versions.push(version)
    }
}

/// Whether one of the strings in `v` reads as `s` does.
pub fn contains_string(v: &Vec<String>, s: &String) -> (r: bool)
    ensures
        r == exists|j: int| 0 <= j < v@.len() && v@[j]@ == s@,
{
    let mut i: usize = 0;
    while i < v.len()
        invariant
            i <= v@.len(),
            forall|j: int| 0 <= j < i ==> v@[j]@ != s@,
        decreases v@.len() - i,
    {
        if v[i].eq(s) {
            return true;
        }
        i += 1;
    }
    false
}

impl Crate {
    /// Fold one more observed version into this entity, keeping insertion
    /// order and never duplicating a version.
    pub fn merge(&self, new: &CrateVersion) -> (r: Crate)
        ensures
            r@ == spec_crate_merge(self@, new.version@),
    {
        let mut versions = self.versions.clone();
        assert(versions@ =~= self.versions@);
        let found = contains_string(&versions, &new.version);
        assert(found == self@.contains(new.version@)) by {
            assert(self@ == versions@.map_values(|s: String| s@));
            if found {
                let j = choose|j: int| 0 <= j < versions@.len() && versions@[j]@ == new.version@;
                assert(self@[j] == versions@[j]@);
            } else if self@.contains(new.version@) {
                let j = choose|j: int| 0 <= j < self@.len() && self@[j] == new.version@;
                assert(self@[j] == versions@[j]@);
            }
        }
        if !found {
            versions.push(new.version.clone());
            assert(versions@.map_values(|s: String| s@) =~= self@.push(new.version@));
        } else {
            assert(versions@.map_values(|s: String| s@) =~= self@);
        }
        Crate { versions }
    }

    /// The entity as first observed from a single version.
    pub fn from_version(v: &CrateVersion) -> (r: Crate)
        ensures
            r@ =~= seq![v.version@],
    {
        let mut versions: Vec<String> = Vec::new();
        versions.push(v.version.clone());
        assert(versions@.map_values(|s: String| s@) =~= seq![v.version@]);
        Crate { versions }
    }
}

/// Process-wide run metadata for one calendar day, merged additively across
/// runs of the same day.
pub struct Context {
    pub num_crates: u64,
    pub num_crate_versions: u64,
    pub dur_fetch_ms: u64,
}

impl Clone for Context {
    fn clone(&self) -> (r: Self)
        ensures
            r == *self,
    {
        Context {
            num_crates: self.num_crates,
            num_crate_versions: self.num_crate_versions,
            dur_fetch_ms: self.dur_fetch_ms,
        }
    }
}

impl Default for Context {
    fn default() -> (r: Self)
        ensures
            r == (Context { num_crates: 0, num_crate_versions: 0, dur_fetch_ms: 0 }),
    {
        Context { num_crates: 0, num_crate_versions: 0, dur_fetch_ms: 0 }
    }
}

/// Addition that tops out at the largest representable count instead of
/// wrapping.
pub open spec fn spec_sat_add(a: u64, b: u64) -> u64 {
    if a + b > u64::MAX {
        u64::MAX
    } else {
        (a + b) as u64
    }
}

/// Saturating counter addition.
pub fn sat_add(a: u64, b: u64) -> (r: u64)
    ensures
        r == spec_sat_add(a, b),
{
    if a <= u64::MAX - b {
        a + b
    } else {
        u64::MAX
    }
}

impl Context {
    /// Fold another run's metadata of the same day into this one: counters
    /// and timings add.
    pub fn merge(&self, new: &Context) -> (r: Context)
        ensures
            r.num_crates == spec_sat_add(self.num_crates, new.num_crates),
            r.num_crate_versions == spec_sat_add(self.num_crate_versions, new.num_crate_versions),
            r.dur_fetch_ms == spec_sat_add(self.dur_fetch_ms, new.dur_fetch_ms),
    {
        Context {
            num_crates: sat_add(self.num_crates, new.num_crates),
            num_crate_versions: sat_add(self.num_crate_versions, new.num_crate_versions),
            dur_fetch_ms: sat_add(self.dur_fetch_ms, new.dur_fetch_ms),
        }
    }
}

} // verus!
