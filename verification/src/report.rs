//! The report aggregation engine: merge per-version reports bottom-up into
//! crate-level and chunk-level aggregates, consult and refresh an on-disk
//! cache per crate so incremental runs stay cheap, emit one write request
//! per rendered artifact, and collect done markers so already-aggregated
//! sub-reports are never recomputed.

use vstd::prelude::*;
use vstd::string::StringExecFns;
use crate::model::{Crate, TaskResult};
use crate::schedule::{all_but_recently_yanked, spec_active_len};
use crate::store::{CrateVersionsTree, ReportsTree, Table, TaskResultTree};

verus! {

/// One artifact to be written: where, and what bytes.
pub struct WriteRequest {
    pub path: String,
    pub content: Vec<u8>,
}

pub ghost struct WriteRequestView {
    pub path: Seq<char>,
    pub content: Seq<u8>,
}

impl View for WriteRequest {
    type V = WriteRequestView;

    open spec fn view(&self) -> WriteRequestView {
        WriteRequestView { path: self.path@, content: self.content@ }
    }
}

impl Clone for WriteRequest {
    fn clone(&self) -> (r: Self)
        ensures
            r@ == self@,
    {
        WriteRequest { path: self.path.clone(), content: self.content.clone() }
    }
}

/// What the pluggable write policy decided for one request: skip it, or
/// perform exactly this write.
pub enum WriteInstruction {
    Skip,
    DoWrite(WriteRequest),
}

impl Clone for WriteInstruction {
    fn clone(&self) -> (r: Self)
        ensures
            match (self, &r) {
                (WriteInstruction::Skip, WriteInstruction::Skip) => true,
                (WriteInstruction::DoWrite(a), WriteInstruction::DoWrite(b)) => a@ == b@,
                _ => false,
            },
    {
        match self {
            WriteInstruction::Skip => WriteInstruction::Skip,
            WriteInstruction::DoWrite(w) => WriteInstruction::DoWrite(w.clone()),
        }
    }
}

/// An aggregable report value: merging is associative and commutative, so
/// partial chunks merged in any order and any number of times yield the
/// same final aggregate.
pub trait Aggregate: Sized {
    /// What merging two report values yields.
    spec fn merged(self, other: Self) -> Self;

    /// The bytes the completed report renders to.
    spec fn rendered(self) -> Seq<u8>;

    /// Merging is associative.
    proof fn lemma_merge_assoc(a: Self, b: Self, c: Self)
        ensures
            a.merged(b).merged(c) == a.merged(b.merged(c)),
    ;

    /// Merging is commutative.
    proof fn lemma_merge_comm(a: Self, b: Self)
        ensures
            a.merged(b) == b.merged(a),
    ;

    fn merge(self, other: Self) -> (r: Self)
        ensures
            r == self.merged(other),
    ;

    /// An identical copy; report values must be duplicable so a crate-level
    /// aggregate can both be written and merged onward.
    fn duplicate(&self) -> (r: Self)
        ensures
            r == *self,
    ;

    /// Render the completed report to bytes.
    fn complete(&self) -> (out: Vec<u8>)
        ensures
            out@ == self.rendered(),
    ;
}

/// A per-version report computer: declares a stable name and version for
/// its output key, knows where its input task result lives, and computes a
/// report from it.
pub trait Generator {
    type Report: Aggregate;

    spec fn spec_name() -> Seq<char>;

    spec fn spec_version() -> Seq<char>;

    fn name() -> (r: String)
        ensures
            r@ == Self::spec_name(),
    ;

    fn version() -> (r: String)
        ensures
            r@ == Self::spec_version(),
    ;

    /// The store key of the task result this generator consumes.
    spec fn spec_result_key(crate_name: Seq<char>, crate_version: Seq<char>) -> Seq<char>;

    fn fq_result_key(crate_name: &String, crate_version: &String) -> (r: String)
        ensures
            r@ == Self::spec_result_key(crate_name@, crate_version@),
    ;

    /// What this generator computes from a stored task result, when it can.
    spec fn spec_generate(
        crate_name: Seq<char>,
        crate_version: Seq<char>,
        result: TaskResult,
    ) -> Option<Self::Report>;

    fn generate_report(crate_name: &String, crate_version: &String, result: &TaskResult) -> (r:
        Result<Self::Report, String>)
        ensures
            match r {
                Ok(rep) => Self::spec_generate(crate_name@, crate_version@, *result) == Some(rep),
                Err(_) => Self::spec_generate(crate_name@, crate_version@, *result) is None,
            },
    ;
}

/// Fetch the generator's input for one entity version.
pub fn get_result<'a, G: Generator>(
    results: &'a TaskResultTree,
    crate_name: &String,
    crate_version: &String,
) -> (r: Option<&'a TaskResult>)
    requires
        results.inner.wf(),
    ensures
        match r {
            Some(v) => results.inner.spec_get(G::spec_result_key(crate_name@, crate_version@))
                == Some(*v),
            None => results.inner.spec_get(G::spec_result_key(crate_name@, crate_version@))
                is None,
        },
{
    let key = G::fq_result_key(crate_name, crate_version);
    results.inner.get(&key)
}

/// The done-marker key of one sub-report.
pub open spec fn spec_report_key<G: Generator>(name: Seq<char>, version: Seq<char>) -> Seq<char> {
    name + ":"@ + version + ":"@ + G::spec_name() + ":"@ + G::spec_version()
}

/// The done-marker key of one sub-report of this generator.
pub fn fq_report_key<G: Generator>(crate_name: &String, crate_version: &String) -> (r: String)
    ensures
        r@ == spec_report_key::<G>(crate_name@, crate_version@),
{
    let n = G::name();
    let v = G::version();
    ReportsTree::key(crate_name.as_str(), crate_version.as_str(), n.as_str(), v.as_str())
}

/// The directory holding one entity's artifacts.
pub fn crate_dir(base: &String, crate_name: &String) -> (r: String)
    ensures
        r@ == base@ + "/"@ + crate_name@,
{
    let mut r = String::new();
    r.append(base.as_str());
    r.append("/");
    r.append(crate_name.as_str());
    r
}

/// The artifact path of one version's report.
pub fn version_html_path(crate_dir: &String, version: &String) -> (r: String)
    ensures
        r@ == crate_dir@ + "/"@ + version@ + ".html"@,
{
    let mut r = String::new();
    r.append(crate_dir.as_str());
    r.append("/");
    r.append(version.as_str());
    r.append(".html");
    r
}

/// The artifact path of one entity's rolled-up report.
pub fn crate_html_path(crate_dir: &String) -> (r: String)
    ensures
        r@ == crate_dir@ + "/index.html"@,
{
    let mut r = String::new();
    r.append(crate_dir.as_str());
    r.append("/index.html");
    r
}

/// Render a completed report into a write request for the given path.
pub fn complete_and_write_report<R: Aggregate>(report: &R, path: String) -> (r: WriteRequest)
    ensures
        r@.path == path@,
        r@.content == report.rendered(),
{
    let content = report.complete();
    WriteRequest { path, content }
}

/// Whether a sub-report is generated on this pass: its input exists, and —
/// when the durable cache is in use — it is not already marked done. With
/// no cache directory the marker check is bypassed, so reports are always
/// produced and the durable cache is never consulted or polluted.
pub open spec fn spec_in_scope<G: Generator>(
    done: ReportsTree,
    results: TaskResultTree,
    use_cache: bool,
    name: Seq<char>,
    version: Seq<char>,
) -> bool {
    &&& (!use_cache || !done.inner.spec_contains(spec_report_key::<G>(name, version)))
    &&& results.inner.spec_get(G::spec_result_key(name, version)) is Some
}

/// What this pass generates for one version, if anything.
pub open spec fn spec_gen_for<G: Generator>(
    results: TaskResultTree,
    name: Seq<char>,
    version: Seq<char>,
) -> Option<G::Report> {
    match results.inner.spec_get(G::spec_result_key(name, version)) {
        None => None,
        Some(res) => G::spec_generate(name, version, res),
    }
}

/// The crate-level accumulator after folding the in-scope reports of
/// `vs[0..to]`, oldest first, merging each new version report into the
/// running aggregate.
pub open spec fn spec_crate_fold<G: Generator>(
    done: ReportsTree,
    results: TaskResultTree,
    use_cache: bool,
    name: Seq<char>,
    vs: Seq<Seq<char>>,
    to: int,
) -> Option<G::Report>
    decreases to,
{
    if to <= 0 {
        None
    } else {
        let rest = spec_crate_fold::<G>(done, results, use_cache, name, vs, to - 1);
        if spec_in_scope::<G>(done, results, use_cache, name, vs[to - 1]) {
            match spec_gen_for::<G>(results, name, vs[to - 1]) {
                Some(rep) => match rest {
                    None => Some(rep),
                    Some(acc) => Some(acc.merged(rep)),
                },
                None => rest,
            }
        } else {
            rest
        }
    }
}

/// The done-marker keys this pass collects for `vs[0..to]`.
pub open spec fn spec_crate_markers<G: Generator>(
    done: ReportsTree,
    results: TaskResultTree,
    use_cache: bool,
    name: Seq<char>,
    vs: Seq<Seq<char>>,
    to: int,
) -> Seq<Seq<char>>
    decreases to,
{
    if to <= 0 {
        Seq::empty()
    } else {
        let rest = spec_crate_markers::<G>(done, results, use_cache, name, vs, to - 1);
        if spec_in_scope::<G>(done, results, use_cache, name, vs[to - 1]) {
            rest.push(spec_report_key::<G>(name, vs[to - 1]))
        } else {
            rest
        }
    }
}

/// The version-level write requests this pass emits for `vs[0..to]`.
pub open spec fn spec_version_writes<G: Generator>(
    done: ReportsTree,
    results: TaskResultTree,
    use_cache: bool,
    out_dir: Seq<char>,
    name: Seq<char>,
    vs: Seq<Seq<char>>,
    to: int,
) -> Seq<WriteRequestView>
    decreases to,
{
    if to <= 0 {
        Seq::empty()
    } else {
        let rest = spec_version_writes::<G>(done, results, use_cache, out_dir, name, vs, to - 1);
        if spec_in_scope::<G>(done, results, use_cache, name, vs[to - 1]) {
            match spec_gen_for::<G>(results, name, vs[to - 1]) {
                Some(rep) => rest.push(
                    WriteRequestView {
                        path: out_dir + "/"@ + name + "/"@ + vs[to - 1] + ".html"@,
                        content: rep.rendered(),
                    },
                ),
                None => rest,
            }
        } else {
            rest
        }
    }
}

/// The crate-level aggregate actually written and cached: the fold of this
/// pass, merged into any previously cached state when the cache is in use.
pub open spec fn spec_absolute_state<G: Generator>(
    cached: Option<G::Report>,
    use_cache: bool,
    fold: G::Report,
) -> G::Report {
    if use_cache {
        match cached {
            Some(prev) => prev.merged(fold),
            None => fold,
        }
    } else {
        fold
    }
}

/// Aggregate one entity: generate each in-scope version's report oldest
/// first (the recently-yanked suffix excluded), merge them into a crate
/// aggregate, emit one write per version and one for the crate-level
/// artifact, refresh the crate's cache entry, and collect the done markers
/// for the caller to flush in one batch.
///
/// On a generation error nothing more is emitted for this entity and the
/// cache is left untouched.
#[verifier::rlimit(50)]
pub fn crate_files<G: Generator>(
    name: &String,
    krate: &Crate,
    crate_versions: &CrateVersionsTree,
    results: &TaskResultTree,
    reports_done: &ReportsTree,
    cache: &mut Table<G::Report>,
    use_cache: bool,
    out_dir: &String,
    writes: &mut Vec<WriteRequest>,
    markers: &mut Vec<String>,
) -> (r: Result<Option<G::Report>, String>)
    requires
        crate_versions.inner.wf(),
        results.inner.wf(),
        reports_done.inner.wf(),
        old(cache).wf(),
    ensures
        final(cache).wf(),
        ({
            let vs = krate.versions@.map_values(|s: String| s@);
            let bound = spec_active_len(*crate_versions, name@, vs);
            match r {
                Ok(fold) => {
                    let expected_fold = spec_crate_fold::<G>(
                        *reports_done,
                        *results,
                        use_cache,
                        name@,
                        vs,
                        bound,
                    );
                    let vws = spec_version_writes::<G>(
                        *reports_done,
                        *results,
                        use_cache,
                        out_dir@,
                        name@,
                        vs,
                        bound,
                    );
                    let mks = spec_crate_markers::<G>(
                        *reports_done,
                        *results,
                        use_cache,
                        name@,
                        vs,
                        bound,
                    );
                    &&& fold == expected_fold
                    &&& final(markers)@.map_values(|s: String| s@) == old(markers)@.map_values(
                        |s: String| s@,
                    ) + mks
                    &&& match expected_fold {
                        None => {
                            &&& final(writes)@.map_values(|w: WriteRequest| w@) == old(
                                writes,
                            )@.map_values(|w: WriteRequest| w@) + vws
                            &&& *final(cache) == *old(cache)
                        },
                        Some(fold_val) => {
                            let absolute = spec_absolute_state::<G>(
                                old(cache).spec_get(name@),
                                use_cache,
                                fold_val,
                            );
                            &&& final(writes)@.map_values(|w: WriteRequest| w@) == old(
                                writes,
                            )@.map_values(|w: WriteRequest| w@) + vws + seq![
                                WriteRequestView {
                                    path: out_dir@ + "/"@ + name@ + "/index.html"@,
                                    content: absolute.rendered(),
                                },
                            ]
                            &&& (use_cache ==> final(cache).spec_get(name@) == Some(absolute)
                                && (forall|k2: Seq<char>|
                                k2 != name@ ==> final(cache).spec_get(k2) == old(cache).spec_get(
                                    k2,
                                )))
                            &&& (!use_cache ==> *final(cache) == *old(cache))
                        },
                    }
                },
                Err(_) => {
                    &&& *final(cache) == *old(cache)
                    &&& exists|j: int|
                        0 <= j < bound && spec_in_scope::<G>(
                            *reports_done,
                            *results,
                            use_cache,
                            name@,
                            vs[j],
                        ) && #[trigger] spec_gen_for::<G>(*results, name@, vs[j]) is None
                },
            }
        }),
{
    let ghost vs = krate.versions@.map_values(|s: String| s@);
    let dir = crate_dir(out_dir, name);
    let bound = all_but_recently_yanked(name, &krate.versions, crate_versions);
    let mut crate_report: Option<G::Report> = None;
    let mut i: usize = 0;
    while i < bound
        invariant
            crate_versions.inner.wf(),
            results.inner.wf(),
            reports_done.inner.wf(),
            cache.wf(),
            *cache == *old(cache),
            vs == krate.versions@.map_values(|s: String| s@),
            dir@ == out_dir@ + "/"@ + name@,
            bound == spec_active_len(*crate_versions, name@, vs),
            bound <= krate.versions@.len(),
            i <= bound,
            crate_report == spec_crate_fold::<G>(
                *reports_done,
                *results,
                use_cache,
                name@,
                vs,
                i as int,
            ),
            markers@.map_values(|s: String| s@) == old(markers)@.map_values(|s: String| s@)
                + spec_crate_markers::<G>(*reports_done, *results, use_cache, name@, vs, i as int),
            writes@.map_values(|w: WriteRequest| w@) == old(writes)@.map_values(
                |w: WriteRequest| w@,
            ) + spec_version_writes::<G>(
                *reports_done,
                *results,
                use_cache,
                out_dir@,
                name@,
                vs,
                i as int,
            ),
        decreases bound - i,
    {
        let version = &krate.versions[i];
        proof {
            assert(vs[i as int] == krate.versions@[i as int]@);
        }
        let key = fq_report_key::<G>(name, version);
        let skip = use_cache && reports_done.is_done(&key);
        if !skip {
            match get_result::<G>(results, name, version) {
                Some(result) => {
                    let version_report = match G::generate_report(name, version, result) {
                        Ok(rep) => rep,
                        Err(e) => {
                            proof {
                                assert(spec_in_scope::<G>(
                                    *reports_done,
                                    *results,
                                    use_cache,
                                    name@,
                                    vs[i as int],
                                ));
                                assert(spec_gen_for::<G>(*results, name@, vs[i as int]) is None);
                            }
                            return Err(e);
                        },
                    };
                    let ghost pre_writes = writes@;
                    let w = complete_and_write_report(
                        &version_report,
                        version_html_path(&dir, version),
                    );
                    writes.push(w);
                    proof {
                        pre_writes.lemma_push_map_commute(|w: WriteRequest| w@, writes@.last());
                        assert(writes@.drop_last() == pre_writes);
                        assert(writes@.map_values(|w: WriteRequest| w@) =~= old(
                            writes,
                        )@.map_values(|w: WriteRequest| w@) + spec_version_writes::<G>(
                            *reports_done,
                            *results,
                            use_cache,
                            out_dir@,
                            name@,
                            vs,
                            i + 1,
                        ));
                    }
                    let ghost pre_markers = markers@;
                    markers.push(key);
                    proof {
                        pre_markers.lemma_push_map_commute(|s: String| s@, markers@.last());
                        assert(markers@.drop_last() == pre_markers);
                        assert(markers@.map_values(|s: String| s@) =~= old(markers)@.map_values(
                            |s: String| s@,
                        ) + spec_crate_markers::<G>(
                            *reports_done,
                            *results,
                            use_cache,
                            name@,
                            vs,
                            i + 1,
                        ));
                    }
                    crate_report = match crate_report {
                        Some(acc) => Some(acc.merge(version_report)),
                        None => Some(version_report),
                    };
                },
                None => {
                    proof {
                        assert(!spec_in_scope::<G>(
                            *reports_done,
                            *results,
                            use_cache,
                            name@,
                            vs[i as int],
                        ));
                    }
                },
            }
        }
        i += 1;
    }
    match crate_report {
        None => Ok(None),
        Some(fold_val) => {
            let cached: Option<G::Report> = if use_cache {
                match cache.get(name) {
                    Some(prev) => Some(prev.duplicate()),
                    None => None,
                }
            } else {
                None
            };
            let absolute = match cached {
                Some(prev) => prev.merge(fold_val.duplicate()),
                None => fold_val.duplicate(),
            };
            let ghost pre_writes = writes@;
            let w = complete_and_write_report(&absolute, crate_html_path(&dir));
            writes.push(w);
            proof {
                pre_writes.lemma_push_map_commute(|w: WriteRequest| w@, writes@.last());
                assert(writes@.drop_last() == pre_writes);
                assert(writes@.map_values(|w: WriteRequest| w@) =~= pre_writes.map_values(
                    |w: WriteRequest| w@,
                ) + seq![writes@.last()@]);
            }
            if use_cache {
                cache.put(name, absolute);
            }
            Ok(Some(fold_val))
        },
    }
}

/// The chunk-level accumulator: the crate folds of `krates[0..to]` merged
/// oldest first.
pub open spec fn spec_chunk_fold<G: Generator>(
    done: ReportsTree,
    results: TaskResultTree,
    use_cache: bool,
    crate_versions: CrateVersionsTree,
    krates: Seq<(String, Crate)>,
    to: int,
) -> Option<G::Report>
    decreases to,
{
    if to <= 0 {
        None
    } else {
        let rest = spec_chunk_fold::<G>(done, results, use_cache, crate_versions, krates, to - 1);
        let name = krates[to - 1].0@;
        let vs = krates[to - 1].1@;
        let bound = spec_active_len(crate_versions, name, vs);
        match spec_crate_fold::<G>(done, results, use_cache, name, vs, bound) {
            None => rest,
            Some(c) => match rest {
                None => Some(c),
                Some(acc) => Some(acc.merged(c)),
            },
        }
    }
}

/// The done markers collected over `krates[0..to]`.
pub open spec fn spec_chunk_markers<G: Generator>(
    done: ReportsTree,
    results: TaskResultTree,
    use_cache: bool,
    crate_versions: CrateVersionsTree,
    krates: Seq<(String, Crate)>,
    to: int,
) -> Seq<Seq<char>>
    decreases to,
{
    if to <= 0 {
        Seq::empty()
    } else {
        let rest = spec_chunk_markers::<G>(done, results, use_cache, crate_versions, krates, to - 1);
        let name = krates[to - 1].0@;
        let vs = krates[to - 1].1@;
        let bound = spec_active_len(crate_versions, name, vs);
        rest + spec_crate_markers::<G>(done, results, use_cache, name, vs, bound)
    }
}

/// The entity names of a chunk.
pub open spec fn spec_chunk_names(krates: Seq<(String, Crate)>) -> Seq<Seq<char>> {
    krates.map_values(|p: (String, Crate)| p.0@)
}

/// Every write request one entity contributes: one per in-scope version,
/// then — when anything was generated — the crate-level artifact, rendered
/// from the cache-merged aggregate against the cache as it stood when the
/// chunk began.
pub open spec fn spec_crate_writes<G: Generator>(
    done: ReportsTree,
    results: TaskResultTree,
    use_cache: bool,
    crate_versions: CrateVersionsTree,
    cache0: Table<G::Report>,
    out_dir: Seq<char>,
    name: Seq<char>,
    vs: Seq<Seq<char>>,
) -> Seq<WriteRequestView> {
    let bound = spec_active_len(crate_versions, name, vs);
    let vws = spec_version_writes::<G>(done, results, use_cache, out_dir, name, vs, bound);
    match spec_crate_fold::<G>(done, results, use_cache, name, vs, bound) {
        None => vws,
        Some(f) => vws + seq![
            WriteRequestView {
                path: out_dir + "/"@ + name + "/index.html"@,
                content: spec_absolute_state::<G>(cache0.spec_get(name), use_cache, f).rendered(),
            },
        ],
    }
}

/// The write requests of a whole chunk, entity by entity in order.
pub open spec fn spec_chunk_writes<G: Generator>(
    done: ReportsTree,
    results: TaskResultTree,
    use_cache: bool,
    crate_versions: CrateVersionsTree,
    cache0: Table<G::Report>,
    krates: Seq<(String, Crate)>,
    out_dir: Seq<char>,
    to: int,
) -> Seq<WriteRequestView>
    decreases to,
{
    if to <= 0 {
        Seq::empty()
    } else {
        spec_chunk_writes::<G>(done, results, use_cache, crate_versions, cache0, krates, out_dir, to - 1)
            + spec_crate_writes::<G>(
            done,
            results,
            use_cache,
            crate_versions,
            cache0,
            out_dir,
            krates[to - 1].0@,
            krates[to - 1].1@,
        )
    }
}

/// What one entity's cache entry holds after the chunk: refreshed with the
/// cache-merged aggregate when the cache is in use and anything was
/// generated, untouched otherwise.
pub open spec fn spec_cache_entry_after<G: Generator>(
    done: ReportsTree,
    results: TaskResultTree,
    use_cache: bool,
    crate_versions: CrateVersionsTree,
    cache0: Table<G::Report>,
    name: Seq<char>,
    vs: Seq<Seq<char>>,
) -> Option<G::Report> {
    let bound = spec_active_len(crate_versions, name, vs);
    match spec_crate_fold::<G>(done, results, use_cache, name, vs, bound) {
        None => cache0.spec_get(name),
        Some(f) => if use_cache {
            Some(spec_absolute_state::<G>(cache0.spec_get(name), use_cache, f))
        } else {
            cache0.spec_get(name)
        },
    }
}

/// A chunk's outputs: the chunk-level aggregate, the write requests in
/// emission order, and the done markers flushed to the store.
pub struct ChunkOutcome<R> {
    pub chunk_report: Option<R>,
    pub writes: Vec<WriteRequest>,
    pub markers: Vec<String>,
}

/// Aggregate one chunk of entities: run `crate_files` over each in order,
/// merge the crate folds into a chunk-level aggregate, and finally flush
/// all newly collected done markers to the store in one batch — batching
/// avoids one store transaction per version.
///
/// Entity names within a chunk are distinct (chunks never overlap on
/// work), so each crate's cache entry is read and written exactly once.
///
/// On a generation error the store's markers are left untouched and the
/// error is surfaced for the whole chunk.
#[verifier::rlimit(80)]
pub fn write_files<G: Generator>(
    krates: &Vec<(String, Crate)>,
    crate_versions: &CrateVersionsTree,
    results: &TaskResultTree,
    reports_done: &mut ReportsTree,
    cache: &mut Table<G::Report>,
    use_cache: bool,
    out_dir: &String,
) -> (r: Result<ChunkOutcome<G::Report>, String>)
    requires
        crate_versions.inner.wf(),
        results.inner.wf(),
        old(reports_done).inner.wf(),
        old(cache).wf(),
        forall|a: int, b: int|
            0 <= a < b < krates@.len() ==> krates@[a].0@ != krates@[b].0@,
    ensures
        final(reports_done).inner.wf(),
        final(cache).wf(),
        ({
            let mks = spec_chunk_markers::<G>(
                *old(reports_done),
                *results,
                use_cache,
                *crate_versions,
                krates@,
                krates@.len() as int,
            );
            match r {
                Ok(out) => {
                    &&& out.chunk_report == spec_chunk_fold::<G>(
                        *old(reports_done),
                        *results,
                        use_cache,
                        *crate_versions,
                        krates@,
                        krates@.len() as int,
                    )
                    &&& out.writes@.map_values(|w: WriteRequest| w@) == spec_chunk_writes::<G>(
                        *old(reports_done),
                        *results,
                        use_cache,
                        *crate_versions,
                        *old(cache),
                        krates@,
                        out_dir@,
                        krates@.len() as int,
                    )
                    &&& out.markers@.map_values(|s: String| s@) == mks
                    &&& forall|k: Seq<char>|
                        mks.contains(k) ==> final(reports_done).inner.spec_get(k) == Some(true)
                    &&& forall|k: Seq<char>|
                        !mks.contains(k) ==> final(reports_done).inner.spec_get(k) == old(
                            reports_done,
                        ).inner.spec_get(k)
                    &&& (!use_cache ==> *final(cache) == *old(cache))
                    &&& forall|ci: int|
                        0 <= ci < krates@.len() ==> final(cache).spec_get(
                            #[trigger] krates@[ci].0@,
                        ) == spec_cache_entry_after::<G>(
                            *old(reports_done),
                            *results,
                            use_cache,
                            *crate_versions,
                            *old(cache),
                            krates@[ci].0@,
                            krates@[ci].1@,
                        )
                    &&& forall|k: Seq<char>|
                        !spec_chunk_names(krates@).contains(k)
                            ==> #[trigger] final(cache).spec_get(k) == old(cache).spec_get(k)
                },
                Err(_) => {
                    &&& *final(reports_done) == *old(reports_done)
                    &&& exists|ci: int, j: int|
                        0 <= ci < krates@.len() && 0 <= j < spec_active_len(
                            *crate_versions,
                            krates@[ci].0@,
                            krates@[ci].1@,
                        ) && spec_in_scope::<G>(
                            *old(reports_done),
                            *results,
                            use_cache,
                            krates@[ci].0@,
                            krates@[ci].1@[j],
                        ) && #[trigger] spec_gen_for::<G>(
                            *results,
                            krates@[ci].0@,
                            krates@[ci].1@[j],
                        ) is None
                },
            }
        }),
{
    let ghost done0 = *reports_done;
    let ghost cache0 = *cache;
    let mut writes: Vec<WriteRequest> = Vec::new();
    let mut markers: Vec<String> = Vec::new();
    let mut chunk_report: Option<G::Report> = None;
    let mut e: usize = 0;
    proof {
        assert(writes@.map_values(|w: WriteRequest| w@) =~= Seq::<WriteRequestView>::empty());
        assert(markers@.map_values(|s: String| s@) =~= Seq::<Seq<char>>::empty());
    }
    while e < krates.len()
        invariant
            crate_versions.inner.wf(),
            results.inner.wf(),
            reports_done.inner.wf(),
            cache.wf(),
            done0 == *old(reports_done),
            cache0 == *old(cache),
            *reports_done == done0,
            forall|a: int, b: int|
                0 <= a < b < krates@.len() ==> krates@[a].0@ != krates@[b].0@,
            e <= krates@.len(),
            chunk_report == spec_chunk_fold::<G>(
                done0,
                *results,
                use_cache,
                *crate_versions,
                krates@,
                e as int,
            ),
            writes@.map_values(|w: WriteRequest| w@) == spec_chunk_writes::<G>(
                done0,
                *results,
                use_cache,
                *crate_versions,
                cache0,
                krates@,
                out_dir@,
                e as int,
            ),
            markers@.map_values(|s: String| s@) == spec_chunk_markers::<G>(
                done0,
                *results,
                use_cache,
                *crate_versions,
                krates@,
                e as int,
            ),
            !use_cache ==> *cache == cache0,
            forall|ci: int|
                0 <= ci < e ==> cache.spec_get(#[trigger] krates@[ci].0@)
                    == spec_cache_entry_after::<G>(
                    done0,
                    *results,
                    use_cache,
                    *crate_versions,
                    cache0,
                    krates@[ci].0@,
                    krates@[ci].1@,
                ),
            forall|ci: int|
                e <= ci < krates@.len() ==> cache.spec_get(#[trigger] krates@[ci].0@)
                    == cache0.spec_get(krates@[ci].0@),
            forall|k: Seq<char>|
                !spec_chunk_names(krates@).contains(k) ==> #[trigger] cache.spec_get(k)
                    == cache0.spec_get(k),
        decreases krates@.len() - e,
    {
        let name = &krates[e].0;
        let krate = &krates[e].1;
        proof {
            assert(name@ == krates@[e as int].0@);
            assert(krate@ == krates@[e as int].1@);
        }
        let ghost cache_pre = *cache;
        let crate_report = match crate_files::<G>(
            name,
            krate,
            crate_versions,
            results,
            reports_done,
            cache,
            use_cache,
            out_dir,
            &mut writes,
            &mut markers,
        ) {
            Ok(c) => c,
            Err(err) => {
                proof {
                    let vs = krate@;
                    let bound = spec_active_len(*crate_versions, name@, vs);
                    let j = choose|j: int|
                        0 <= j < bound && spec_in_scope::<G>(
                            done0,
                            *results,
                            use_cache,
                            name@,
                            vs[j],
                        ) && #[trigger] spec_gen_for::<G>(*results, name@, vs[j]) is None;
                    assert(spec_gen_for::<G>(
                        *results,
                        krates@[e as int].0@,
                        krates@[e as int].1@[j],
                    ) is None);
                }
                return Err(err);
            },
        };
        proof {
            let vs = krate@;
            let bound = spec_active_len(*crate_versions, name@, vs);
            assert(cache_pre.spec_get(name@) == cache0.spec_get(name@));
            assert(spec_chunk_writes::<G>(
                done0,
                *results,
                use_cache,
                *crate_versions,
                cache0,
                krates@,
                out_dir@,
                e + 1,
            ) =~= spec_chunk_writes::<G>(
                done0,
                *results,
                use_cache,
                *crate_versions,
                cache0,
                krates@,
                out_dir@,
                e as int,
            ) + spec_crate_writes::<G>(
                done0,
                *results,
                use_cache,
                *crate_versions,
                cache0,
                out_dir@,
                name@,
                vs,
            ));
            assert(writes@.map_values(|w: WriteRequest| w@) =~= spec_chunk_writes::<G>(
                done0,
                *results,
                use_cache,
                *crate_versions,
                cache0,
                krates@,
                out_dir@,
                e + 1,
            ));
            assert(spec_chunk_names(krates@)[e as int] == krates@[e as int].0@);
            assert(spec_chunk_names(krates@).contains(name@));
            assert forall|ci: int| 0 <= ci < e + 1 implies cache.spec_get(
                #[trigger] krates@[ci].0@,
            ) == spec_cache_entry_after::<G>(
                done0,
                *results,
                use_cache,
                *crate_versions,
                cache0,
                krates@[ci].0@,
                krates@[ci].1@,
            ) by {
                if ci < e {
                    assert(krates@[ci].0@ != name@);
                }
            }
        }
        chunk_report = match crate_report {
            None => chunk_report,
            Some(c) => match chunk_report {
                None => Some(c),
                Some(acc) => Some(acc.merge(c)),
            },
        };
        e += 1;
    }
    let ghost mks = spec_chunk_markers::<G>(
        done0,
        *results,
        use_cache,
        *crate_versions,
        krates@,
        krates@.len() as int,
    );
    let mut m: usize = 0;
    while m < markers.len()
        invariant
            reports_done.inner.wf(),
            m <= markers@.len(),
            markers@.map_values(|s: String| s@) == mks,
            forall|k: Seq<char>|
                mks.take(m as int).contains(k) ==> reports_done.inner.spec_get(k) == Some(true),
            forall|k: Seq<char>|
                !mks.take(m as int).contains(k) ==> reports_done.inner.spec_get(k) == done0
                    .inner.spec_get(k),
        decreases markers@.len() - m,
    {
        proof {
            assert(mks[m as int] == markers@[m as int]@);
        }
        reports_done.set_done(&markers[m]);
        proof {
            assert(reports_done.inner.spec_get(mks[m as int]) == Some(true));
            assert forall|k: Seq<char>|
                mks.take(m + 1).contains(k) implies reports_done.inner.spec_get(k) == Some(
                true,
            ) by {
                if k != mks[m as int] {
                    let j = choose|j: int| 0 <= j < m + 1 && #[trigger] mks.take(m + 1)[j] == k;
                    assert(mks.take(m as int)[j] == k);
                    assert(mks.take(m as int).contains(k));
                }
            }
            assert forall|k: Seq<char>|
                !mks.take(m + 1).contains(k) implies reports_done.inner.spec_get(k) == done0
                .inner.spec_get(k) by {
                assert(forall|j: int|
                    0 <= j < m ==> mks.take(m + 1)[j] == #[trigger] mks.take(m as int)[j]);
                assert(!mks.take(m as int).contains(k));
                assert(mks.take(m + 1)[m as int] == mks[m as int]);
                assert(k != mks[m as int]);
            }
        }
        m += 1;
    }
    proof {
        assert(mks.take(markers@.len() as int) =~= mks);
    }
    Ok(ChunkOutcome { chunk_report, writes, markers })
}


/// The fold of a sequence of per-chunk reports, oldest first.
pub open spec fn spec_fold_reports<R: Aggregate>(reports: Seq<R>, to: int) -> Option<R>
    decreases to,
{
    if to <= 0 {
        None
    } else {
        match spec_fold_reports::<R>(reports, to - 1) {
            None => Some(reports[to - 1]),
            Some(acc) => Some(acc.merged(reports[to - 1])),
        }
    }
}

/// Merging a cached aggregate of one batch with a second batch equals
/// merging both batches directly: the cache round-trip loses nothing.
pub proof fn lemma_cache_round_trip<R: Aggregate>(first: Seq<R>, second: Seq<R>)
    requires
        first.len() > 0,
    ensures
        spec_fold_reports::<R>(first + second, first.len() + second.len() as int) == Some(
            match spec_fold_reports::<R>(second, second.len() as int) {
                None => spec_fold_reports::<R>(first, first.len() as int)->0,
                Some(s) => spec_fold_reports::<R>(first, first.len() as int)->0.merged(s),
            },
        ),
    decreases second.len(),
{
    if second.len() == 0 {
        assert(first + second =~= first);
        lemma_fold_some::<R>(first, first.len() as int);
    } else {
        let shorter = second.drop_last();
        lemma_cache_round_trip::<R>(first, shorter);
        assert((first + shorter) =~= (first + second).drop_last());
        lemma_fold_prefix::<R>(
            first + second,
            first + shorter,
            first.len() + shorter.len() as int,
        );
        lemma_fold_some::<R>(first, first.len() as int);
        lemma_fold_prefix::<R>(second, shorter, shorter.len() as int);
        let f = spec_fold_reports::<R>(first, first.len() as int)->0;
        let last = second.last();
        assert((first + second)[first.len() + second.len() - 1] == last);
        assert(second[second.len() - 1] == last);
        match spec_fold_reports::<R>(shorter, shorter.len() as int) {
            None => {
                if shorter.len() > 0 {
                    lemma_fold_some::<R>(shorter, shorter.len() as int);
                }
                assert(second.len() == 1);
                assert(spec_fold_reports::<R>(second, 0) is None);
                assert(spec_fold_reports::<R>(second, 1) == Some(last));
            },
            Some(s) => {
                R::lemma_merge_assoc(f, s, last);
            },
        }
    }
}

/// Folds agree from a point on when they agreed up to it and the
/// remaining reports are the same.
proof fn lemma_fold_eq_from<R: Aggregate>(s: Seq<R>, t: Seq<R>, k: int, to: int)
    requires
        0 <= k <= to,
        to <= s.len(),
        to <= t.len(),
        spec_fold_reports::<R>(s, k) == spec_fold_reports::<R>(t, k),
        forall|j: int| k <= j < to ==> s[j] == t[j],
    ensures
        spec_fold_reports::<R>(s, to) == spec_fold_reports::<R>(t, to),
    decreases to - k,
{
    if to > k {
        lemma_fold_eq_from::<R>(s, t, k, to - 1);
    }
}

/// Merging is order-independent: swapping two neighbouring reports in the
/// arrival order leaves the fold unchanged. Every reordering is a chain of
/// such swaps, so the final aggregate — and hence the top-level artifact —
/// does not depend on the order chunk reports arrive in.
pub proof fn lemma_fold_swap_adjacent<R: Aggregate>(s: Seq<R>, i: int)
    requires
        0 <= i,
        i + 1 < s.len(),
    ensures
        spec_fold_reports::<R>(s.update(i, s[i + 1]).update(i + 1, s[i]), s.len() as int)
            == spec_fold_reports::<R>(s, s.len() as int),
{
    let t = s.update(i, s[i + 1]).update(i + 1, s[i]);
    assert(t.len() == s.len());
    assert(forall|j: int| 0 <= j < i ==> s[j] == t[j]);
    lemma_fold_prefix::<R>(t, s, i);
    assert(t[i] == s[i + 1]);
    assert(t[i + 1] == s[i]);
    match spec_fold_reports::<R>(s, i) {
        None => {
            assert(spec_fold_reports::<R>(t, i) is None);
            assert(spec_fold_reports::<R>(t, i + 1) == Some(t[i]));
            assert(spec_fold_reports::<R>(s, i + 1) == Some(s[i]));
            assert(spec_fold_reports::<R>(t, i + 2) == Some(s[i + 1].merged(s[i])));
            assert(spec_fold_reports::<R>(s, i + 2) == Some(s[i].merged(s[i + 1])));
            R::lemma_merge_comm(s[i], s[i + 1]);
        },
        Some(f) => {
            assert(spec_fold_reports::<R>(t, i) == Some(f));
            assert(spec_fold_reports::<R>(t, i + 1) == Some(f.merged(t[i])));
            assert(spec_fold_reports::<R>(s, i + 1) == Some(f.merged(s[i])));
            assert(spec_fold_reports::<R>(t, i + 2) == Some(f.merged(s[i + 1]).merged(s[i])));
            assert(spec_fold_reports::<R>(s, i + 2) == Some(f.merged(s[i]).merged(s[i + 1])));
            R::lemma_merge_assoc(f, s[i + 1], s[i]);
            R::lemma_merge_assoc(f, s[i], s[i + 1]);
            R::lemma_merge_comm(s[i], s[i + 1]);
        },
    }
    assert(forall|j: int| i + 2 <= j < s.len() ==> s[j] == t[j]);
    lemma_fold_eq_from::<R>(t, s, i + 2, s.len() as int);
}

/// The fold reads only the first `to` reports.
proof fn lemma_fold_prefix<R: Aggregate>(s1: Seq<R>, s2: Seq<R>, to: int)
    requires
        forall|j: int| 0 <= j < to ==> s1[j] == s2[j],
    ensures
        spec_fold_reports::<R>(s1, to) == spec_fold_reports::<R>(s2, to),
    decreases to,
{
    if to > 0 {
        lemma_fold_prefix::<R>(s1, s2, to - 1);
    }
}

/// A non-empty batch folds to a value.
pub proof fn lemma_fold_some<R: Aggregate>(reports: Seq<R>, to: int)
    requires
        to >= 1,
    ensures
        spec_fold_reports::<R>(reports, to) is Some,
    decreases to,
{
    if to > 1 {
        lemma_fold_some::<R>(reports, to - 1);
    }
}

/// Drain the collected per-chunk reports, merge them into one aggregate,
/// merge that against any previously cached top-level state, and emit the
/// final top-level artifact plus the new cache value. Failed chunks are
/// counted and skipped — a report failure never loses the others. When no
/// chunk yielded a report at all, nothing is written and no cached state
/// is consulted.
pub fn merge_reports<R: Aggregate>(
    chunk_reports: Vec<Result<Option<R>, String>>,
    previous: Option<R>,
    out_dir: &String,
) -> (r: (Option<(WriteRequest, R)>, usize))
    ensures
        r.1 == spec_err_count(chunk_reports@, chunk_reports@.len() as int),
        ({
            let oks = spec_ok_reports(chunk_reports@);
            match r.0 {
                Some((w, cached)) => spec_fold_reports::<R>(oks, oks.len() as int) matches Some(f)
                    && cached == (match previous {
                    Some(p) => p.merged(f),
                    None => f,
                }) && w@.path == out_dir@ + "/index.html"@ && w@.content == cached.rendered(),
                None => spec_fold_reports::<R>(oks, oks.len() as int) is None,
            }
        }),
{
    let ghost oks = spec_ok_reports(chunk_reports@);
    let mut report: Option<R> = None;
    let mut failures: usize = 0;
    let mut i: usize = 0;
    let n = chunk_reports.len();
    let remaining = chunk_reports;
    proof {
        assert(spec_ok_reports(remaining@.take(0)) =~= Seq::<R>::empty());
    }
    let ghost all = remaining@;
    while i < n
        invariant
            n == all.len(),
            remaining@ == all,
            oks == spec_ok_reports(all),
            i <= n,
            failures == spec_err_count(all, i as int),
            failures <= i,
            report == spec_fold_reports::<R>(
                spec_ok_reports(all.take(i as int)),
                spec_ok_reports(all.take(i as int)).len() as int,
            ),
        decreases n - i,
    {
        let item = match &remaining[i] {
            Ok(Some(rep)) => Some(rep.duplicate()),
            Ok(None) => None,
            Err(_) => {
                failures += 1;
                None
            },
        };
        proof {
            lemma_ok_reports_take_succ(all, i as int);
        }
        match item {
            Some(rep) => {
                proof {
                    let pre = spec_ok_reports(all.take(i as int));
                    lemma_fold_prefix::<R>(pre.push(rep), pre, pre.len() as int);
                }
                report = match report {
                    None => Some(rep),
                    Some(acc) => Some(acc.merge(rep)),
                };
            },
            None => {},
        }
        i += 1;
    }
    proof {
        assert(all.take(n as int) =~= all);
    }
    match report {
        None => (None, failures),
        Some(rep) => {
            let total = match previous {
                Some(p) => p.merge(rep),
                None => rep,
            };
            let w = complete_and_write_report(&total, crate_html_path(out_dir));
            (Some((w, total)), failures)
        },
    }
}

/// How many of the first `to` chunks failed.
pub open spec fn spec_err_count<R: Aggregate>(
    items: Seq<Result<Option<R>, String>>,
    to: int,
) -> int
    decreases to,
{
    if to <= 0 {
        0
    } else {
        spec_err_count(items, to - 1) + if items[to - 1] is Err {
            1int
        } else {
            0int
        }
    }
}

/// The reports of the chunks that succeeded with a value, in order.
pub open spec fn spec_ok_reports<R: Aggregate>(items: Seq<Result<Option<R>, String>>) -> Seq<R>
    decreases items.len(),
{
    if items.len() == 0 {
        Seq::empty()
    } else {
        let rest = spec_ok_reports(items.drop_last());
        match items.last() {
            Ok(Some(rep)) => rest.push(rep),
            _ => rest,
        }
    }
}

proof fn lemma_ok_reports_take_succ<R: Aggregate>(items: Seq<Result<Option<R>, String>>, i: int)
    requires
        0 <= i < items.len(),
    ensures
        spec_ok_reports(items.take(i + 1)) == match items[i] {
            Ok(Some(rep)) => spec_ok_reports(items.take(i)).push(rep),
            _ => spec_ok_reports(items.take(i)),
        },
{
    assert(items.take(i + 1).drop_last() =~= items.take(i));
    assert(items.take(i + 1).last() == items[i]);
}

} // verus!
