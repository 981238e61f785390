//! The persistent merge store: typed tables mapping string keys to values.
//! Every write passes through the owning type's merge function; reads return
//! exactly what was stored. The busy-retry policy that shields callers from
//! transient writer contention is modelled by `retry_on_db_lock`, which
//! decides, for the outcome each attempt would see, how many attempts are
//! made and what is surfaced.

use vstd::prelude::*;
use vstd::string::{StringExecFns, StrSliceExecFns};
use vstd::utf8::encode_utf8;
use crate::model::{Context, Crate, CrateVersion, Task, TaskResult, spec_crate_merge, spec_sat_add, task_key};

verus! {

/// One table of the store: a mapping from string keys to values of one
/// declared type, keys unique, insertion order kept.
pub struct Table<V> {
    pub keys: Vec<String>,
    pub vals: Vec<V>,
}

impl<V> Table<V> {
    /// Keys are unique and each key has exactly one value.
    pub open spec fn wf(self) -> bool {
        &&& self.keys@.len() == self.vals@.len()
        &&& forall|i: int, j: int|
            0 <= i < j < self.keys@.len() ==> self.keys@[i]@ != self.keys@[j]@
    }

    /// The first position at or after `i` whose key reads as `k`, or -1.
    pub open spec fn key_index_from(keys: Seq<String>, k: Seq<char>, i: int) -> int
        decreases keys.len() - i,
    {
        if i < 0 || i >= keys.len() {
            -1
        } else if keys[i]@ == k {
            i
        } else {
            Self::key_index_from(keys, k, i + 1)
        }
    }

    pub open spec fn key_index(self, k: Seq<char>) -> int {
        Self::key_index_from(self.keys@, k, 0)
    }

    pub open spec fn spec_contains(self, k: Seq<char>) -> bool {
        self.key_index(k) >= 0
    }

    /// The value stored under `k`, if any.
    pub open spec fn spec_get(self, k: Seq<char>) -> Option<V> {
        if self.key_index(k) >= 0 {
            Some(self.vals@[self.key_index(k)])
        } else {
            None
        }
    }

    /// Total number of rows.
    pub open spec fn spec_len(self) -> nat {
        self.keys@.len()
    }

    /// `key_index_from` lands on a match at or after `i`, never before one.
    pub proof fn lemma_key_index_from(keys: Seq<String>, k: Seq<char>, i: int)
        requires
            0 <= i <= keys.len(),
        ensures
            ({
                let r = Self::key_index_from(keys, k, i);
                &&& (r == -1 ==> forall|j: int| i <= j < keys.len() ==> keys[j]@ != k)
                &&& (r != -1 ==> i <= r < keys.len() && keys[r]@ == k && forall|j: int|
                    i <= j < r ==> keys[j]@ != k)
            }),
        decreases keys.len() - i,
    {
        if i < keys.len() && keys[i]@ != k {
            Self::lemma_key_index_from(keys, k, i + 1);
        }
    }

    /// Skipping a prefix without a match does not change the result.
    pub proof fn lemma_key_index_skip(keys: Seq<String>, k: Seq<char>, i: int)
        requires
            0 <= i <= keys.len(),
            forall|j: int| 0 <= j < i ==> keys[j]@ != k,
        ensures
            Self::key_index_from(keys, k, 0) == Self::key_index_from(keys, k, i),
        decreases i,
    {
        if i > 0 {
            Self::lemma_key_index_skip_step(keys, k, 0, i);
        }
    }

    proof fn lemma_key_index_skip_step(keys: Seq<String>, k: Seq<char>, lo: int, i: int)
        requires
            0 <= lo <= i <= keys.len(),
            forall|j: int| lo <= j < i ==> keys[j]@ != k,
        ensures
            Self::key_index_from(keys, k, lo) == Self::key_index_from(keys, k, i),
        decreases i - lo,
    {
        if lo < i {
            Self::lemma_key_index_skip_step(keys, k, lo + 1, i);
        }
    }

    /// Appending a key that does not read as `k` leaves `k`'s position as it
    /// was.
    pub proof fn lemma_key_index_push_other(keys: Seq<String>, s: String, k: Seq<char>, i: int)
        requires
            0 <= i <= keys.len(),
            s@ != k,
        ensures
            Self::key_index_from(keys.push(s), k, i) == Self::key_index_from(keys, k, i),
        decreases keys.len() - i,
    {
        assert(keys.push(s).len() == keys.len() + 1);
        if i < keys.len() {
            assert(keys.push(s)[i] == keys[i]);
            if keys[i]@ != k {
                Self::lemma_key_index_push_other(keys, s, k, i + 1);
            }
        } else {
            assert(keys.push(s)[i] == s);
            assert(Self::key_index_from(keys.push(s), k, i + 1) == -1);
        }
    }

    /// An empty table.
    pub fn new() -> (r: Table<V>)
        ensures
            r.wf(),
            r.spec_len() == 0,
            forall|k: Seq<char>| r.spec_get(k) is None,
    {
        let r = Table { keys: Vec::new(), vals: Vec::new() };
        proof {
            assert forall|k: Seq<char>| r.spec_get(k) is None by {
                Self::lemma_key_index_from(r.keys@, k, 0);
            }
        }
        r
    }

    /// Total rows.
    pub fn count(&self) -> (r: usize)
        requires
            self.wf(),
        ensures
            r == self.spec_len(),
    {
        self.keys.len()
    }

    /// The value under `key`, or absent if the key is unknown.
    pub fn get(&self, key: &String) -> (r: Option<&V>)
        requires
            self.wf(),
        ensures
            match r {
                Some(v) => self.spec_get(key@) == Some(*v),
                None => self.spec_get(key@) is None,
            },
    {
        let mut i: usize = 0;
        while i < self.keys.len()
            invariant
                self.wf(),
                i <= self.keys@.len(),
                forall|j: int| 0 <= j < i ==> self.keys@[j]@ != key@,
            decreases self.keys@.len() - i,
        {
            if self.keys[i].eq(key) {
                proof {
                    Self::lemma_key_index_skip(self.keys@, key@, i as int);
                }
                return Some(&self.vals[i]);
            }
            i += 1;
        }
        proof {
            Self::lemma_key_index_skip(self.keys@, key@, i as int);
        }
        None
    }

    /// Store `v` under `key`, replacing any prior value; every other key is
    /// untouched, and the row count grows exactly when the key is new.
    pub fn put(&mut self, key: &String, v: V)
        requires
            old(self).wf(),
        ensures
            final(self).wf(),
            final(self).spec_get(key@) == Some(v),
            forall|k2: Seq<char>| k2 != key@ ==> final(self).spec_get(k2) == old(self).spec_get(k2),
            final(self).spec_len() == if old(self).spec_contains(key@) {
                old(self).spec_len()
            } else {
                old(self).spec_len() + 1
            },
    {
        let ghost old_keys = self.keys@;
        let ghost old_vals = self.vals@;
        let mut i: usize = 0;
        while i < self.keys.len()
            invariant
                self.wf(),
                old_keys == old(self).keys@,
                old_vals == old(self).vals@,
                self.keys@ == old_keys,
                self.vals@ == old_vals,
                i <= self.keys@.len(),
                forall|j: int| 0 <= j < i ==> self.keys@[j]@ != key@,
            decreases self.keys@.len() - i,
        {
            if self.keys[i].eq(key) {
                proof {
                    Self::lemma_key_index_skip(old_keys, key@, i as int);
                    assert(Self::key_index_from(old_keys, key@, i as int) == i);
                }
                self.vals.set(i, v);
                proof {
                    assert(self.key_index(key@) == i);
                    assert forall|k2: Seq<char>| k2 != key@ implies self.spec_get(k2) == old(
                        self,
                    ).spec_get(k2) by {
                        Self::lemma_key_index_from(old_keys, k2, 0);
                        let r = Self::key_index_from(old_keys, k2, 0);
                        assert(self.key_index(k2) == r);
                        if r >= 0 {
                            assert(old_keys[r]@ == k2);
                            assert(old_keys[i as int]@ == key@);
                            assert(r != i);
                            assert(self.vals@[r] == old_vals[r]);
                        }
                    }
                }
                return;
            }
            i += 1;
        }
        proof {
            Self::lemma_key_index_skip(old_keys, key@, i as int);
        }
        let key2 = key.clone();
        self.keys.push(key2);
        self.vals.push(v);
        proof {
            assert(self.keys@ == old_keys.push(key2));
            assert forall|a: int, b: int|
                0 <= a < b < self.keys@.len() implies self.keys@[a]@ != self.keys@[b]@ by {
                if b == old_keys.len() {
                    assert(self.keys@[a] == old_keys[a]);
                }
            }
            Self::lemma_key_index_skip(old_keys.push(key2), key@, old_keys.len() as int);
            assert(Self::key_index_from(old_keys.push(key2), key@, old_keys.len() as int)
                == old_keys.len()) by {
                assert(old_keys.push(key2)[old_keys.len() as int]@ == key@);
            }
            assert(self.spec_get(key@) == Some(v));
            assert forall|k2: Seq<char>| k2 != key@ implies self.spec_get(k2) == old(
                self,
            ).spec_get(k2) by {
                Self::lemma_key_index_push_other(old_keys, key2, k2, 0);
                let r = Self::key_index_from(old_keys, k2, 0);
                Self::lemma_key_index_from(old_keys, k2, 0);
                if r >= 0 {
                    assert(self.vals@[r] == old_vals[r]);
                }
            }
        }
    }
}

/// The outcome one attempt of a store operation would see.
#[derive(Clone, Copy, PartialEq, Eq, Structural, Debug)]
pub enum OpOutcome {
    /// The transaction committed.
    Succeeded,
    /// The database was busy with another writer; worth retrying.
    Busy,
    /// A non-transient failure; surfaced at once.
    Failed,
}

/// What the retry wrapper surfaced, and after how many attempts.
pub struct RetryOutcome {
    pub attempts: usize,
    pub result: OpOutcome,
}

/// An operation is retried on contention at most this many times before the
/// busy condition is surfaced as fatal, bounding the total stall.
pub const MAX_DB_ATTEMPTS: usize = 1000;

/// The length of the run of busy outcomes at the front of `s` from `i`.
pub open spec fn busy_run(s: Seq<OpOutcome>, i: int) -> int
    decreases s.len() - i,
{
    if i < 0 || i >= s.len() || s[i] != OpOutcome::Busy {
        0
    } else {
        1 + busy_run(s, i + 1)
    }
}

pub proof fn lemma_busy_run(s: Seq<OpOutcome>, i: int)
    requires
        0 <= i <= s.len(),
    ensures
        0 <= busy_run(s, i) <= s.len() - i,
        forall|j: int| i <= j < i + busy_run(s, i) ==> s[j] == OpOutcome::Busy,
        i + busy_run(s, i) < s.len() ==> s[i + busy_run(s, i)] != OpOutcome::Busy,
    decreases s.len() - i,
{
    if i < s.len() && s[i] == OpOutcome::Busy {
        lemma_busy_run(s, i + 1);
    }
}

proof fn lemma_busy_run_step(s: Seq<OpOutcome>, lo: int, i: int)
    requires
        0 <= lo <= i <= s.len(),
        forall|j: int| lo <= j < i ==> s[j] == OpOutcome::Busy,
    ensures
        busy_run(s, lo) == (i - lo) + busy_run(s, i),
    decreases i - lo,
{
    if lo < i {
        lemma_busy_run_step(s, lo + 1, i);
    }
}

/// The bounded busy-retry policy: given the outcome each successive attempt
/// would see, attempts are made until one is not busy or the attempt budget
/// is exhausted; the first non-busy outcome is surfaced, or the busy
/// condition itself once the budget is spent.
pub fn retry_on_db_lock(outcomes: &Vec<OpOutcome>) -> (r: RetryOutcome)
    requires
        outcomes@.len() >= MAX_DB_ATTEMPTS,
    ensures
        ({
            let b = busy_run(outcomes@, 0);
            if b >= MAX_DB_ATTEMPTS {
                r.attempts == MAX_DB_ATTEMPTS && r.result == OpOutcome::Busy
            } else {
                r.attempts == b + 1 && r.result == outcomes@[b] && r.result != OpOutcome::Busy
            }
        }),
{
    let mut attempt: usize = 0;
    loop
        invariant
            outcomes@.len() >= MAX_DB_ATTEMPTS,
            0 <= attempt < MAX_DB_ATTEMPTS,
            forall|j: int| 0 <= j < attempt ==> outcomes@[j] == OpOutcome::Busy,
        decreases MAX_DB_ATTEMPTS - attempt,
    {
        let out = outcomes[attempt];
        attempt += 1;
        if !matches!(out, OpOutcome::Busy) {
            proof {
                lemma_busy_run_step(outcomes@, 0, attempt - 1);
                assert(busy_run(outcomes@, attempt - 1) == 0);
            }
            return RetryOutcome { attempts: attempt, result: out };
        }
        if attempt == MAX_DB_ATTEMPTS {
            proof {
                lemma_busy_run_step(outcomes@, 0, attempt as int);
                lemma_busy_run(outcomes@, attempt as int);
            }
            return RetryOutcome { attempts: attempt, result: OpOutcome::Busy };
        }
    }
}

/// The ledger of tasks: key `entity:version:process:process_version`.
/// Merging stamps the stored timestamp and adopts the incoming identity and
/// state.
pub struct TasksTree {
    pub inner: Table<Task>,
}

impl TasksTree {
    pub fn new() -> (r: TasksTree)
        ensures
            r.inner.wf(),
            r.inner.spec_len() == 0,
            forall|k: Seq<char>| r.inner.spec_get(k) is None,
    {
        TasksTree { inner: Table::new() }
    }

    pub fn get(&self, key: &String) -> (r: Option<&Task>)
        requires
            self.inner.wf(),
        ensures
            match r {
                Some(v) => self.inner.spec_get(key@) == Some(*v),
                None => self.inner.spec_get(key@) is None,
            },
    {
        self.inner.get(key)
    }

    /// Store a task under its key: the type's merge keeps the incoming
    /// identity and state and stamps the store time, whatever was there.
    pub fn upsert(&mut self, key: &String, task: &Task, now: u64) -> (r: Task)
        requires
            old(self).inner.wf(),
        ensures
            final(self).inner.wf(),
            r.stored_at == now && r.process == task.process && r.version == task.version
                && r.state == task.state,
            final(self).inner.spec_get(key@) == Some(r),
            forall|k2: Seq<char>| k2 != key@ ==> final(self).inner.spec_get(k2) == old(
                self,
            ).inner.spec_get(k2),
            final(self).inner.spec_len() == if old(self).inner.spec_contains(key@) {
                old(self).inner.spec_len()
            } else {
                old(self).inner.spec_len() + 1
            },
    {
        let merged = Task {
            stored_at: now,
            process: task.process.clone(),
            version: task.version.clone(),
            state: task.state.clone(),
        };
        let r = merged.clone();
        self.inner.put(key, merged);
        r
    }
}

/// Per-task results: key shared with the task that produced them.
pub struct TaskResultTree {
    pub inner: Table<TaskResult>,
}

impl TaskResultTree {
    pub fn new() -> (r: TaskResultTree)
        ensures
            r.inner.wf(),
            r.inner.spec_len() == 0,
            forall|k: Seq<char>| r.inner.spec_get(k) is None,
    {
        TaskResultTree { inner: Table::new() }
    }

    pub fn get(&self, key: &String) -> (r: Option<&TaskResult>)
        requires
            self.inner.wf(),
        ensures
            match r {
                Some(v) => self.inner.spec_get(key@) == Some(*v),
                None => self.inner.spec_get(key@) is None,
            },
    {
        self.inner.get(key)
    }

    /// Results replace: the merge of a result against any prior value is the
    /// new result itself.
    pub fn insert(&mut self, key: &String, result: TaskResult)
        requires
            old(self).inner.wf(),
        ensures
            final(self).inner.wf(),
            final(self).inner.spec_get(key@) == Some(result),
            forall|k2: Seq<char>| k2 != key@ ==> final(self).inner.spec_get(k2) == old(
                self,
            ).inner.spec_get(k2),
    {
        self.inner.put(key, result);
    }
}

/// Entities: key the entity name; merging folds one more observed version
/// into the stored version list.
pub struct CratesTree {
    pub inner: Table<Crate>,
}

impl CratesTree {
    pub fn new() -> (r: CratesTree)
        ensures
            r.inner.wf(),
            r.inner.spec_len() == 0,
            forall|k: Seq<char>| r.inner.spec_get(k) is None,
    {
        CratesTree { inner: Table::new() }
    }

    pub fn get(&self, key: &String) -> (r: Option<&Crate>)
        requires
            self.inner.wf(),
        ensures
            match r {
                Some(v) => self.inner.spec_get(key@) == Some(*v),
                None => self.inner.spec_get(key@) is None,
            },
    {
        self.inner.get(key)
    }

    /// Fold a newly observed version into the stored entity, creating the
    /// entity from that single version if it was unknown.
    pub fn upsert(&mut self, key: &String, v: &CrateVersion) -> (r: Crate)
        requires
            old(self).inner.wf(),
        ensures
            final(self).inner.wf(),
            ({
                let expect = match old(self).inner.spec_get(key@) {
                    Some(c) => spec_crate_merge(c@, v.version@),
                    None => seq![v.version@],
                };
                &&& r@ == expect
                &&& final(self).inner.spec_get(key@) matches Some(c2) && c2@ == expect
            }),
            forall|k2: Seq<char>| k2 != key@ ==> final(self).inner.spec_get(k2) == old(
                self,
            ).inner.spec_get(k2),
            final(self).inner.spec_len() == if old(self).inner.spec_contains(key@) {
                old(self).inner.spec_len()
            } else {
                old(self).inner.spec_len() + 1
            },
    {
        let merged = match self.inner.get(key) {
            Some(existing) => existing.merge(v),
            None => Crate::from_version(v),
        };
        let r = Crate { versions: merged.versions.clone() };
        proof {
            assert(r.versions@ =~= merged.versions@);
            assert(r@ =~= merged@);
        }
        self.inner.put(key, merged);
        r
    }
}

/// Entity versions: key `name:version`; writes replace.
pub struct CrateVersionsTree {
    pub inner: Table<CrateVersion>,
}

impl CrateVersionsTree {
    pub fn new() -> (r: CrateVersionsTree)
        ensures
            r.inner.wf(),
            r.inner.spec_len() == 0,
            forall|k: Seq<char>| r.inner.spec_get(k) is None,
    {
        CrateVersionsTree { inner: Table::new() }
    }

    pub fn get(&self, key: &String) -> (r: Option<&CrateVersion>)
        requires
            self.inner.wf(),
        ensures
            match r {
                Some(v) => self.inner.spec_get(key@) == Some(*v),
                None => self.inner.spec_get(key@) is None,
            },
    {
        self.inner.get(key)
    }

    pub fn insert(&mut self, key: &String, v: CrateVersion)
        requires
            old(self).inner.wf(),
        ensures
            final(self).inner.wf(),
            final(self).inner.spec_get(key@) == Some(v),
            forall|k2: Seq<char>| k2 != key@ ==> final(self).inner.spec_get(k2) == old(
                self,
            ).inner.spec_get(k2),
    {
        self.inner.put(key, v);
    }

    pub fn count(&self) -> (r: usize)
        requires
            self.inner.wf(),
        ensures
            r == self.inner.spec_len(),
    {
        self.inner.count()
    }
}

/// Byte-wise lexicographic order: the order the store lists keys in.
pub open spec fn lex_le(a: Seq<u8>, b: Seq<u8>) -> bool
    decreases a.len(),
{
    if a.len() == 0 {
        true
    } else if b.len() == 0 {
        false
    } else if a[0] < b[0] {
        true
    } else if a[0] > b[0] {
        false
    } else {
        lex_le(a.drop_first(), b.drop_first())
    }
}

/// Any two byte strings are ordered one way or the other.
pub proof fn lemma_lex_total(a: Seq<u8>, b: Seq<u8>)
    ensures
        lex_le(a, b) || lex_le(b, a),
    decreases a.len(),
{
    if a.len() > 0 && b.len() > 0 && a[0] == b[0] {
        lemma_lex_total(a.drop_first(), b.drop_first());
    }
}

/// The order is transitive.
pub proof fn lemma_lex_trans(a: Seq<u8>, b: Seq<u8>, c: Seq<u8>)
    requires
        lex_le(a, b),
        lex_le(b, c),
    ensures
        lex_le(a, c),
    decreases a.len(),
{
    if a.len() > 0 && b.len() > 0 && c.len() > 0 && a[0] == b[0] && b[0] == c[0] {
        lemma_lex_trans(a.drop_first(), b.drop_first(), c.drop_first());
    }
}

proof fn lemma_lex_skip(a: Seq<u8>, b: Seq<u8>, i: int)
    requires
        0 <= i <= a.len(),
        i <= b.len(),
        forall|j: int| 0 <= j < i ==> a[j] == b[j],
    ensures
        lex_le(a, b) == lex_le(a.skip(i), b.skip(i)),
    decreases i,
{
    if i > 0 {
        assert(a.len() > 0 && b.len() > 0 && a[0] == b[0]);
        assert(forall|j: int| 0 <= j < i - 1 ==> a.drop_first()[j] == b.drop_first()[j]);
        lemma_lex_skip(a.drop_first(), b.drop_first(), i - 1);
        assert(a.drop_first().skip(i - 1) =~= a.skip(i));
        assert(b.drop_first().skip(i - 1) =~= b.skip(i));
    } else {
        assert(a.skip(0) =~= a);
        assert(b.skip(0) =~= b);
    }
}

/// Compare two byte strings in the store's key order.
pub fn bytes_lex_le(a: &Vec<u8>, b: &Vec<u8>) -> (r: bool)
    ensures
        r == lex_le(a@, b@),
{
    let shorter: usize = if a.len() <= b.len() {
        a.len()
    } else {
        b.len()
    };
    let mut i: usize = 0;
    while i < shorter
        invariant
            shorter <= a@.len(),
            shorter <= b@.len(),
            i <= shorter,
            forall|j: int| 0 <= j < i ==> a@[j] == b@[j],
        decreases shorter - i,
    {
        if a[i] < b[i] {
            proof {
                lemma_lex_skip(a@, b@, i as int);
            }
            return true;
        }
        if a[i] > b[i] {
            proof {
                lemma_lex_skip(a@, b@, i as int);
            }
            return false;
        }
        i += 1;
    }
    proof {
        lemma_lex_skip(a@, b@, i as int);
    }
    a.len() <= b.len()
}

/// Run metadata: one row per calendar day, merged additively.
pub struct ContextTree {
    pub inner: Table<Context>,
}

impl ContextTree {
    pub fn new() -> (r: ContextTree)
        ensures
            r.inner.wf(),
            r.inner.spec_len() == 0,
            forall|k: Seq<char>| r.inner.spec_get(k) is None,
    {
        ContextTree { inner: Table::new() }
    }

    pub fn get(&self, key: &String) -> (r: Option<&Context>)
        requires
            self.inner.wf(),
        ensures
            match r {
                Some(v) => self.inner.spec_get(key@) == Some(*v),
                None => self.inner.spec_get(key@) is None,
            },
    {
        self.inner.get(key)
    }

    /// Fold `delta` into today's row, starting from the empty default if the
    /// day is new, and return the stored value.
    pub fn update_today(&mut self, today: &String, delta: &Context) -> (r: Context)
        requires
            old(self).inner.wf(),
        ensures
            final(self).inner.wf(),
            ({
                let prior = match old(self).inner.spec_get(today@) {
                    Some(c) => c,
                    None => Context { num_crates: 0, num_crate_versions: 0, dur_fetch_ms: 0 },
                };
                &&& r.num_crates == spec_sat_add(prior.num_crates, delta.num_crates)
                &&& r.num_crate_versions == spec_sat_add(
                    prior.num_crate_versions,
                    delta.num_crate_versions,
                )
                &&& r.dur_fetch_ms == spec_sat_add(prior.dur_fetch_ms, delta.dur_fetch_ms)
                &&& final(self).inner.spec_get(today@) == Some(r)
            }),
            forall|k2: Seq<char>| k2 != today@ ==> final(self).inner.spec_get(k2) == old(
                self,
            ).inner.spec_get(k2),
    {
        let merged = match self.inner.get(today) {
            Some(existing) => existing.merge(delta),
            None => Context::default().merge(delta),
        };
        let r = merged.clone();
        self.inner.put(today, merged);
        r
    }

    /// The row with the greatest key in the store's key order: with
    /// date-shaped keys, the most recent day on record.
    pub fn most_recent(&self) -> (r: Option<(String, Context)>)
        requires
            self.inner.wf(),
        ensures
            match r {
                None => self.inner.spec_len() == 0,
                Some((k, v)) => self.inner.spec_get(k@) == Some(v) && forall|j: int|
                    0 <= j < self.inner.keys@.len() ==> lex_le(
                        encode_utf8(self.inner.keys@[j]@),
                        encode_utf8(k@),
                    ),
            },
    {
        if self.inner.keys.len() == 0 {
            return None;
        }
        let mut best: usize = 0;
        let mut best_bytes = self.inner.keys[0].as_str().as_bytes_vec();
        proof {
            lemma_lex_total(best_bytes@, best_bytes@);
        }
        let mut i: usize = 1;
        while i < self.inner.keys.len()
            invariant
                self.inner.wf(),
                self.inner.keys@.len() > 0,
                best < i <= self.inner.keys@.len(),
                best_bytes@ == encode_utf8(self.inner.keys@[best as int]@),
                forall|j: int|
                    0 <= j < i ==> lex_le(encode_utf8(self.inner.keys@[j]@), best_bytes@),
            decreases self.inner.keys@.len() - i,
        {
            let cand = self.inner.keys[i].as_str().as_bytes_vec();
            if !bytes_lex_le(&cand, &best_bytes) {
                proof {
                    lemma_lex_total(cand@, best_bytes@);
                    lemma_lex_total(cand@, cand@);
                    assert forall|j: int|
                        0 <= j < i implies lex_le(encode_utf8(self.inner.keys@[j]@), cand@) by {
                        lemma_lex_trans(encode_utf8(self.inner.keys@[j]@), best_bytes@, cand@);
                    }
                }
                best = i;
                best_bytes = cand;
            }
            i += 1;
        }
        let key = self.inner.keys[best].clone();
        let value = self.inner.vals[best].clone();
        proof {
            Table::<Context>::lemma_key_index_from(self.inner.keys@, key@, 0);
            let r = Table::<Context>::key_index_from(self.inner.keys@, key@, 0);
            assert(self.inner.keys@[best as int]@ == key@);
            assert(r != -1);
            assert(self.inner.keys@[r]@ == key@);
            assert(r == best);
        }
        Some((key, value))
    }
}

/// Done markers for generated sub-reports: a persisted flag per
/// (entity, version, report name, report version).
pub struct ReportsTree {
    pub inner: Table<bool>,
}

impl ReportsTree {
    pub fn new() -> (r: ReportsTree)
        ensures
            r.inner.wf(),
            r.inner.spec_len() == 0,
            forall|k: Seq<char>| r.inner.spec_get(k) is None,
    {
        ReportsTree { inner: Table::new() }
    }

    /// The done-marker key of one sub-report.
    pub fn key(crate_name: &str, crate_version: &str, report_name: &str, report_version: &str) -> (r:
        String)
        ensures
            r@ == crate_name@ + ":"@ + crate_version@ + ":"@ + report_name@ + ":"@
                + report_version@,
    {
        task_key(crate_name, crate_version, report_name, report_version)
    }

    /// Whether this sub-report was already generated and counted into some
    /// cached aggregate.
    pub fn is_done(&self, key: &String) -> (r: bool)
        requires
            self.inner.wf(),
        ensures
            r == self.inner.spec_contains(key@),
    {
        matches!(self.inner.get(key), Some(_))
    }

    /// Record that this sub-report has been generated.
    pub fn set_done(&mut self, key: &String)
        requires
            old(self).inner.wf(),
        ensures
            final(self).inner.wf(),
            final(self).inner.spec_get(key@) == Some(true),
            forall|k2: Seq<char>| k2 != key@ ==> final(self).inner.spec_get(k2) == old(
                self,
            ).inner.spec_get(k2),
    {
        self.inner.put(key, true);
    }
}

} // verus!
