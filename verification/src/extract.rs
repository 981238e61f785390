//! The CPU-bound extraction stage: unpack a downloaded crate archive, find
//! the manifest to learn which source paths are interesting, record metadata
//! for every entry, and capture content for interesting or auxiliary-binary
//! entries — interesting paths in full, glob-only matches capped at a fixed
//! size bound so adversarial entries cannot exhaust memory.

use vstd::prelude::*;
use vstd::string::StringExecFns;
use crate::manifest::{CargoConfig, ManifestPaths, bytes_eq, clone_bytes, copy_range, parse_manifest, spec_manifest_paths};
use crate::model::{SelectedEntry, SelectedEntryView, TarHeader, TarHeaderView, Task, TaskResult, TaskResultView, TaskState};
use crate::pool::{AttemptOutcome, Processor};
use crate::store::{Table, TaskResultTree};

verus! {

/// One unit of extraction work: the completed download task it depends on,
/// and the entity version whose archive is to be unpacked.
pub struct ExtractRequest {
    pub download_task: Task,
    pub crate_name: String,
    pub crate_version: String,
}

impl Clone for ExtractRequest {
    fn clone(&self) -> (r: Self)
        ensures
            r == *self,
    {
        ExtractRequest {
            download_task: self.download_task.clone(),
            crate_name: self.crate_name.clone(),
            crate_version: self.crate_version.clone(),
        }
    }
}

/// The task record under which extraction work is persisted: a fresh,
/// not-yet-started task of the extraction process.
pub fn default_persisted_extraction_task(now: u64) -> (r: Task)
    ensures
        r.stored_at == now,
        r.process@ == "extract_crate"@,
        r.version@ == "1.0.0"@,
        r.state == TaskState::NotStarted,
{
    Task {
        stored_at: now,
        process: String::from_str("extract_crate"),
        version: String::from_str("1.0.0"),
        state: TaskState::NotStarted,
    }
}

/// Stored content of an entry matched only by the auxiliary-binary glob is
/// capped at this many bytes.
pub const MAX_STORED_BYTES: usize = 131072;

/// Decoding the archive failed: the gzip stream or the archive structure
/// is corrupt.
#[derive(Clone, Copy, PartialEq, Eq, Structural, Debug)]
pub enum ExtractError {
    ArchiveDecode,
}

/// One entry of a decoded archive: its path, declared size, type byte and
/// full content.
pub struct ArchiveEntry {
    pub path: Vec<u8>,
    pub size: u64,
    pub entry_type: u8,
    pub content: Vec<u8>,
}

pub ghost struct ArchiveEntryView {
    pub path: Seq<u8>,
    pub size: u64,
    pub entry_type: u8,
    pub content: Seq<u8>,
}

impl View for ArchiveEntry {
    type V = ArchiveEntryView;

    open spec fn view(&self) -> ArchiveEntryView {
        ArchiveEntryView {
            path: self.path@,
            size: self.size,
            entry_type: self.entry_type,
            content: self.content@,
        }
    }
}

/// What the gzip stream decompresses to; a function of the bytes alone.
pub uninterp spec fn gunzip_of(bytes: Seq<u8>) -> Seq<u8>;

/// Whether the bytes decode as a gzip stream at all; a function of the
/// bytes alone.
pub uninterp spec fn gunzip_ok(bytes: Seq<u8>) -> bool;

/// The entries a tar stream holds; a function of the bytes alone.
pub uninterp spec fn tar_entries_of(bytes: Seq<u8>) -> Seq<ArchiveEntryView>;

/// Whether the bytes parse as an archive at all; a function of the bytes
/// alone.
pub uninterp spec fn tar_ok(bytes: Seq<u8>) -> bool;

/// Whether a path matches the fixed auxiliary-binary glob `src/bin/*.rs`;
/// a function of the path bytes alone.
pub uninterp spec fn std_bin_match(path: Seq<u8>) -> bool;

/// Relies on libflate's gzip decoder: the decompressed stream is a function
/// of the compressed bytes alone.
#[verifier::external_body]
fn gunzip(bytes: &Vec<u8>) -> (r: Result<Vec<u8>, ExtractError>)
    ensures
        r is Ok <==> gunzip_ok(bytes@),
        r matches Ok(v) ==> v@ == gunzip_of(bytes@),
{
    let mut decoder = match libflate::gzip::Decoder::new(&bytes[..]) {
        Ok(d) => d,
        Err(_) => return Err(ExtractError::ArchiveDecode),
    };
    let mut out = Vec::new();
    match std::io::Read::read_to_end(&mut decoder, &mut out) {
        Ok(_) => Ok(out),
        Err(_) => Err(ExtractError::ArchiveDecode),
    }
}

/// Relies on tar's entry iterator: each entry's path bytes, declared size,
/// type byte and content, in archive order, a function of the bytes alone.
#[verifier::external_body]
fn tar_entries(bytes: &Vec<u8>) -> (r: Result<Vec<ArchiveEntry>, ExtractError>)
    ensures
        r is Ok <==> tar_ok(bytes@),
        r matches Ok(v) ==> v@.map_values(|e: ArchiveEntry| e@) == tar_entries_of(bytes@),
{
    let mut out: Vec<ArchiveEntry> = Vec::new();
    let mut archive = tar::Archive::new(&bytes[..]);
    let entries = archive.entries().map_err(|_| ExtractError::ArchiveDecode)?;
    for entry in entries {
        let mut e = entry.map_err(|_| ExtractError::ArchiveDecode)?;
        let path = e.path_bytes().to_vec();
        let size = e.header().size().map_err(|_| ExtractError::ArchiveDecode)?;
        let entry_type = e.header().entry_type().as_byte();
        let mut content = Vec::new();
        std::io::Read::read_to_end(&mut e, &mut content).map_err(|_| ExtractError::ArchiveDecode)?;
        out.push(ArchiveEntry { path, size, entry_type, content });
    }
    Ok(out)
}

/// Relies on globset with the fixed pattern `src/bin/*.rs`: whether the
/// path names an auxiliary binary in the standard location.
#[verifier::external_body]
fn is_standard_bin_path(path: &Vec<u8>) -> (r: bool)
    ensures
        r == std_bin_match(path@),
{
    let matcher = match globset::Glob::new("src/bin/*.rs") {
        Ok(g) => g.compile_matcher(),
        Err(_) => return false,
    };
    match std::str::from_utf8(path) {
        Ok(s) => matcher.is_match(s),
        Err(_) => false,
    }
}

/// The bytes of the path `Cargo.toml`.
pub open spec fn cargo_toml_path() -> Seq<u8> {
    seq![67u8, 97u8, 114u8, 103u8, 111u8, 46u8, 116u8, 111u8, 109u8, 108u8]
}

/// The bytes of the path `Cargo.lock`.
pub open spec fn cargo_lock_path() -> Seq<u8> {
    seq![67u8, 97u8, 114u8, 103u8, 111u8, 46u8, 108u8, 111u8, 99u8, 107u8]
}

/// The bytes of the default build-script path `build.rs`.
pub open spec fn default_build_script() -> Seq<u8> {
    seq![98u8, 117u8, 105u8, 108u8, 100u8, 46u8, 114u8, 115u8]
}

/// The bytes of the default library-entry path `src/lib.rs`.
pub open spec fn default_lib_path() -> Seq<u8> {
    seq![115u8, 114u8, 99u8, 47u8, 108u8, 105u8, 98u8, 46u8, 114u8, 115u8]
}

/// The bytes of `Cargo.toml`.
pub fn cargo_toml_path_bytes() -> (r: Vec<u8>)
    ensures
        r@ == cargo_toml_path(),
{
    let r: Vec<u8> = vec![67u8, 97u8, 114u8, 103u8, 111u8, 46u8, 116u8, 111u8, 109u8, 108u8];
    proof {
        assert(r@ =~= cargo_toml_path());
    }
    r
}

/// The bytes of `Cargo.lock`.
pub fn cargo_lock_path_bytes() -> (r: Vec<u8>)
    ensures
        r@ == cargo_lock_path(),
{
    let r: Vec<u8> = vec![67u8, 97u8, 114u8, 103u8, 111u8, 46u8, 108u8, 111u8, 99u8, 107u8];
    proof {
        assert(r@ =~= cargo_lock_path());
    }
    r
}

/// The bytes of `build.rs`.
pub fn default_build_script_bytes() -> (r: Vec<u8>)
    ensures
        r@ == default_build_script(),
{
    let r: Vec<u8> = vec![98u8, 117u8, 105u8, 108u8, 100u8, 46u8, 114u8, 115u8];
    proof {
        assert(r@ =~= default_build_script());
    }
    r
}

/// The bytes of `src/lib.rs`.
pub fn default_lib_path_bytes() -> (r: Vec<u8>)
    ensures
        r@ == default_lib_path(),
{
    let r: Vec<u8> = vec![115u8, 114u8, 99u8, 47u8, 108u8, 105u8, 98u8, 46u8, 114u8, 115u8];
    proof {
        assert(r@ =~= default_lib_path());
    }
    r
}

/// The paths whose content is always captured in full: the two manifest
/// files, and — when the manifest was found — the declared-or-default
/// build-script and library paths plus every declared binary path.
pub open spec fn spec_interesting(m: Option<ManifestPaths>) -> Seq<Seq<u8>> {
    let base = seq![cargo_toml_path(), cargo_lock_path()];
    match m {
        None => base,
        Some(m) => {
            let b = match m.build {
                Some(b) => b,
                None => default_build_script(),
            };
            let l = match m.lib {
                Some(l) => l,
                None => default_lib_path(),
            };
            base + seq![b, l] + m.bins
        },
    }
}

/// Build the interesting-path list from a parsed manifest, if one was
/// found.
pub fn interesting_paths(cfg: Option<&CargoConfig>) -> (r: Vec<Vec<u8>>)
    ensures
        r@.map_values(|v: Vec<u8>| v@) == spec_interesting(
            match cfg {
                Some(c) => Some(c@),
                None => None,
            },
        ),
{
    let mut r: Vec<Vec<u8>> = Vec::new();
    r.push(cargo_toml_path_bytes());
    r.push(cargo_lock_path_bytes());
    match cfg {
        None => {
            proof {
                assert(r@.map_values(|v: Vec<u8>| v@) =~= seq![cargo_toml_path(), cargo_lock_path()]);
            }
            r
        },
        Some(c) => {
            match &c.build {
                Some(b) => {
                    let copied = clone_bytes(b);
                    r.push(copied);
                },
                None => {
                    r.push(default_build_script_bytes());
                },
            }
            match &c.lib {
                Some(l) => {
                    let copied = clone_bytes(l);
                    r.push(copied);
                },
                None => {
                    r.push(default_lib_path_bytes());
                },
            }
            let ghost m = c@;
            proof {
                assert(r@.map_values(|v: Vec<u8>| v@) =~= spec_interesting(Some(m)).take(4));
            }
            let mut i: usize = 0;
            while i < c.bins.len()
                invariant
                    m == c@,
                    i <= c.bins@.len(),
                    spec_interesting(Some(m)).len() == 4 + m.bins.len(),
                    m.bins.len() == c.bins@.len(),
                    r@.map_values(|v: Vec<u8>| v@) =~= spec_interesting(Some(m)).take(4 + i),
                decreases c.bins@.len() - i,
            {
                let copied = clone_bytes(&c.bins[i]);
                let ghost pre = r@;
                r.push(copied);
                proof {
                    assert(m.bins[i as int] == c.bins@[i as int]@);
                    assert(spec_interesting(Some(m))[4 + i] == m.bins[i as int]);
                    pre.lemma_push_map_commute(|v: Vec<u8>| v@, copied);
                    spec_interesting(Some(m)).lemma_take_succ_push(4 + i);
                    assert(r@.map_values(|v: Vec<u8>| v@) =~= spec_interesting(Some(m)).take(
                        4 + i + 1,
                    ));
                }
                i += 1;
            }
            proof {
                assert(spec_interesting(Some(m)).take(4 + c.bins@.len() as int) =~= spec_interesting(
                    Some(m),
                ));
            }
            r
        },
    }
}

/// The position of the first entry whose path is `Cargo.toml`, or -1.
pub open spec fn spec_manifest_idx(entries: Seq<ArchiveEntryView>, i: int) -> int
    decreases entries.len() - i,
{
    if i < 0 || i >= entries.len() {
        -1
    } else if entries[i].path == cargo_toml_path() {
        i
    } else {
        spec_manifest_idx(entries, i + 1)
    }
}

proof fn lemma_manifest_idx_skip(entries: Seq<ArchiveEntryView>, lo: int, i: int)
    requires
        0 <= lo <= i <= entries.len(),
        forall|j: int| lo <= j < i ==> entries[j].path != cargo_toml_path(),
    ensures
        spec_manifest_idx(entries, lo) == spec_manifest_idx(entries, i),
    decreases i - lo,
{
    if lo < i {
        lemma_manifest_idx_skip(entries, lo + 1, i);
    }
}

/// The content of the first manifest entry, if the archive has one.
pub open spec fn spec_found_manifest(entries: Seq<ArchiveEntryView>) -> Option<Seq<u8>> {
    let i = spec_manifest_idx(entries, 0);
    if i >= 0 {
        Some(entries[i].content)
    } else {
        None
    }
}

/// The metadata recorded for every entry, selected or not.
pub open spec fn spec_header_of(e: ArchiveEntryView) -> TarHeaderView {
    TarHeaderView { path: e.path, size: e.size, entry_type: e.entry_type }
}

pub open spec fn spec_headers(entries: Seq<ArchiveEntryView>) -> Seq<TarHeaderView> {
    entries.map_values(|e: ArchiveEntryView| spec_header_of(e))
}

/// An entry's content is captured when its path is interesting or matches
/// the auxiliary-binary glob.
pub open spec fn spec_is_captured(path: Seq<u8>, interesting: Seq<Seq<u8>>) -> bool {
    interesting.contains(path) || std_bin_match(path)
}

/// What is stored of a captured entry: interesting paths in full, glob-only
/// matches capped at the size bound.
pub open spec fn spec_stored_content(e: ArchiveEntryView, interesting: Seq<Seq<u8>>) -> Seq<u8> {
    if interesting.contains(e.path) {
        e.content
    } else if e.content.len() <= MAX_STORED_BYTES {
        e.content
    } else {
        e.content.take(MAX_STORED_BYTES as int)
    }
}

/// The selected (metadata, content) pairs among the first `to` entries, in
/// archive order.
pub open spec fn spec_selected(
    entries: Seq<ArchiveEntryView>,
    interesting: Seq<Seq<u8>>,
    to: int,
) -> Seq<SelectedEntryView>
    decreases to,
{
    if to <= 0 {
        Seq::empty()
    } else {
        let rest = spec_selected(entries, interesting, to - 1);
        let e = entries[to - 1];
        if spec_is_captured(e.path, interesting) {
            rest.push(
                SelectedEntryView {
                    meta: spec_header_of(e),
                    content: spec_stored_content(e, interesting),
                },
            )
        } else {
            rest
        }
    }
}

/// The complete extraction result for a decoded archive.
pub open spec fn spec_exploded(entries: Seq<ArchiveEntryView>) -> TaskResultView {
    let interesting = spec_interesting(
        match spec_found_manifest(entries) {
            Some(c) => Some(spec_manifest_paths(c)),
            None => None,
        },
    );
    TaskResultView::ExplodedCrate {
        entries_meta_data: spec_headers(entries),
        selected_entries: spec_selected(entries, interesting, entries.len() as int),
    }
}

/// Whether `p` reads as one of the paths in `paths`.
fn contains_path(paths: &Vec<Vec<u8>>, p: &Vec<u8>) -> (r: bool)
    ensures
        r == paths@.map_values(|v: Vec<u8>| v@).contains(p@),
{
    let ghost view = paths@.map_values(|v: Vec<u8>| v@);
    let mut i: usize = 0;
    while i < paths.len()
        invariant
            view == paths@.map_values(|v: Vec<u8>| v@),
            i <= paths@.len(),
            forall|j: int| 0 <= j < i ==> paths@[j]@ != p@,
        decreases paths@.len() - i,
    {
        if bytes_eq(&paths[i], p) {
            proof {
                assert(view[i as int] == p@);
            }
            return true;
        }
        i += 1;
    }
    proof {
        assert forall|j: int| 0 <= j < view.len() implies view[j] != p@ by {
            assert(view[j] == paths@[j]@);
        }
    }
    false
}

/// First pass: find the manifest among the entries.
fn find_manifest(entries: &Vec<ArchiveEntry>) -> (r: Option<usize>)
    ensures
        ({
            let evs = entries@.map_values(|e: ArchiveEntry| e@);
            match r {
                Some(i) => spec_manifest_idx(evs, 0) == i && i < entries@.len(),
                None => spec_manifest_idx(evs, 0) == -1,
            }
        }),
{
    let ghost evs = entries@.map_values(|e: ArchiveEntry| e@);
    let toml = cargo_toml_path_bytes();
    let mut i: usize = 0;
    while i < entries.len()
        invariant
            evs == entries@.map_values(|e: ArchiveEntry| e@),
            toml@ == cargo_toml_path(),
            i <= entries@.len(),
            forall|j: int| 0 <= j < i ==> #[trigger] evs[j].path != cargo_toml_path(),
        decreases entries@.len() - i,
    {
        if bytes_eq(&entries[i].path, &toml) {
            proof {
                assert(evs[i as int].path == cargo_toml_path());
                lemma_manifest_idx_skip(evs, 0, i as int);
            }
            return Some(i);
        }
        proof {
            assert(evs[i as int].path == entries@[i as int].path@);
        }
        i += 1;
    }
    proof {
        lemma_manifest_idx_skip(evs, 0, i as int);
    }
    None
}

/// Second pass over the decoded entries: record metadata for every entry,
/// and capture content for each interesting or glob-matched path — in full
/// for interesting paths, capped at the size bound for glob-only matches.
pub fn extract_from_entries(entries: &Vec<ArchiveEntry>) -> (r: TaskResult)
    ensures
        r@ == spec_exploded(entries@.map_values(|e: ArchiveEntry| e@)),
{
    let ghost evs = entries@.map_values(|e: ArchiveEntry| e@);
    let found = find_manifest(entries);
    let cfg = match found {
        Some(i) => {
            proof {
                assert(evs[i as int] == entries@[i as int]@);
            }
            Some(parse_manifest(&entries[i].content))
        },
        None => None,
    };
    let paths = match &cfg {
        Some(c) => interesting_paths(Some(c)),
        None => interesting_paths(None),
    };
    let ghost interesting = paths@.map_values(|v: Vec<u8>| v@);
    proof {
        match found {
            Some(i) => {
                assert(spec_found_manifest(evs) == Some(evs[i as int].content));
            },
            None => {
                assert(spec_found_manifest(evs) is None);
            },
        }
        assert(interesting == spec_interesting(
            match spec_found_manifest(evs) {
                Some(c) => Some(spec_manifest_paths(c)),
                None => None,
            },
        ));
    }
    let mut meta: Vec<TarHeader> = Vec::new();
    let mut files: Vec<SelectedEntry> = Vec::new();
    let mut i: usize = 0;
    proof {
        assert(meta@.map_values(|h: TarHeader| h@) =~= spec_headers(evs.take(0)));
    }
    while i < entries.len()
        invariant
            evs == entries@.map_values(|e: ArchiveEntry| e@),
            interesting == paths@.map_values(|v: Vec<u8>| v@),
            i <= entries@.len(),
            meta@.map_values(|h: TarHeader| h@) == spec_headers(evs.take(i as int)),
            files@.map_values(|f: SelectedEntry| f@) == spec_selected(evs, interesting, i as int),
        decreases entries@.len() - i,
    {
        let e = &entries[i];
        proof {
            assert(evs[i as int] == entries@[i as int]@);
        }
        let header = TarHeader {
            path: clone_bytes(&e.path),
            size: e.size,
            entry_type: e.entry_type,
        };
        proof {
            assert(header@ == spec_header_of(evs[i as int]));
        }
        let ghost pre_meta = meta@;
        meta.push(header);
        proof {
            pre_meta.lemma_push_map_commute(|h: TarHeader| h@, meta@.last());
            assert(meta@.drop_last() == pre_meta);
            evs.take(i + 1).lemma_map_take_succ(|e: ArchiveEntryView| spec_header_of(e), i as int);
            evs.lemma_map_take_succ(|e: ArchiveEntryView| spec_header_of(e), i as int);
            assert(meta@.map_values(|h: TarHeader| h@) =~= spec_headers(evs.take(i + 1)));
        }
        let interesting_hit = contains_path(&paths, &e.path);
        if interesting_hit || is_standard_bin_path(&e.path) {
            let content = if interesting_hit {
                clone_bytes(&e.content)
            } else if e.content.len() <= MAX_STORED_BYTES {
                clone_bytes(&e.content)
            } else {
                copy_range(&e.content, 0, MAX_STORED_BYTES)
            };
            proof {
                assert(e.content@.subrange(0, MAX_STORED_BYTES as int) =~= e.content@.take(
                    MAX_STORED_BYTES as int,
                ));
                assert(content@ == spec_stored_content(evs[i as int], interesting));
            }
            let selected = SelectedEntry {
                meta: TarHeader {
                    path: clone_bytes(&e.path),
                    size: e.size,
                    entry_type: e.entry_type,
                },
                content,
            };
            proof {
                assert(selected@ == (SelectedEntryView {
                    meta: spec_header_of(evs[i as int]),
                    content: spec_stored_content(evs[i as int], interesting),
                }));
            }
            let ghost pre_files = files@;
            files.push(selected);
            proof {
                pre_files.lemma_push_map_commute(|f: SelectedEntry| f@, files@.last());
                assert(files@.drop_last() == pre_files);
                assert(files@.map_values(|f: SelectedEntry| f@) =~= spec_selected(
                    evs,
                    interesting,
                    i + 1,
                ));
            }
        } else {
            proof {
                assert(files@.map_values(|f: SelectedEntry| f@) =~= spec_selected(
                    evs,
                    interesting,
                    i + 1,
                ));
            }
        }
        i += 1;
    }
    proof {
        assert(evs.take(entries@.len() as int) =~= evs);
    }
    TaskResult::ExplodedCrate { entries_meta_data: meta, selected_entries: files }
}

/// Unpack one downloaded archive and persist the extraction result under
/// `key`. Any decode error is surfaced for this item alone, and nothing is
/// stored.
pub fn extract_crate(results: &mut TaskResultTree, key: &String, archive: &Vec<u8>) -> (r: Result<
    (),
    ExtractError,
>)
    requires
        old(results).inner.wf(),
    ensures
        final(results).inner.wf(),
        r is Ok <==> gunzip_ok(archive@) && tar_ok(gunzip_of(archive@)),
        match r {
            Ok(()) => (final(results).inner.spec_get(key@) matches Some(tr) && tr@ == spec_exploded(
                tar_entries_of(gunzip_of(archive@)),
            )) && forall|k2: Seq<char>|
                k2 != key@ ==> final(results).inner.spec_get(k2) == old(results).inner.spec_get(k2),
            Err(e) => *final(results) == *old(results) && e == ExtractError::ArchiveDecode,
        },
{
    let tar_bytes = match gunzip(archive) {
        Ok(b) => b,
        Err(e) => {
            return Err(e);
        },
    };
    let entries = match tar_entries(&tar_bytes) {
        Ok(v) => v,
        Err(e) => {
            return Err(e);
        },
    };
    let result = extract_from_entries(&entries);
    results.insert(key, result);
    Ok(())
}

/// The file path under which a download stage left one archive.
pub fn download_file_path(
    asset_dir: &str,
    crate_name: &str,
    crate_version: &str,
    process: &str,
    process_version: &str,
) -> (r: String)
    ensures
        r@ == asset_dir@ + "/"@ + crate_name@ + "/"@ + crate_version@ + "/"@ + process@ + "-"@
            + process_version@ + ".crate"@,
{
    let mut r = String::new();
    r.append(asset_dir);
    r.append("/");
    r.append(crate_name);
    r.append("/");
    r.append(crate_version);
    r.append("/");
    r.append(process);
    r.append("-");
    r.append(process_version);
    r.append(".crate");
    r
}

struct ProcessingState {
    downloaded_crate: String,
    key: String,
}

impl Clone for ProcessingState {
    fn clone(&self) -> (r: Self)
        ensures
            r == *self,
    {
        ProcessingState {
            downloaded_crate: self.downloaded_crate.clone(),
            key: self.key.clone(),
        }
    }
}

/// The extraction stage's handler: holds the asset store the download
/// stage filled, and persists each extraction result.
pub struct Agent {
    asset_dir: String,
    assets: Table<Vec<u8>>,
    state: Option<ProcessingState>,
    now: u64,
}

impl Agent {
    /// The archives this agent can unpack, keyed by their download file
    /// path.
    pub closed spec fn inv(&self) -> bool {
        self.assets.wf()
    }

    /// The item prepared by `set` and not yet processed: the file path of
    /// its downloaded archive, and the ledger key of its task.
    pub closed spec fn pending(&self) -> Option<(Seq<char>, Seq<char>)> {
        match self.state {
            Some(st) => Some((st.downloaded_crate@, st.key@)),
            None => None,
        }
    }

    /// The clock this agent stamps new task records with.
    pub closed spec fn spec_now(&self) -> u64 {
        self.now
    }

    /// The directory the download stage leaves archives in.
    pub closed spec fn spec_asset_dir(&self) -> Seq<char> {
        self.asset_dir@
    }

    /// The archive bytes held under a download file path, if any.
    pub closed spec fn spec_asset(&self, path: Seq<char>) -> Option<Seq<u8>> {
        match self.assets.spec_get(path) {
            Some(v) => Some(v@),
            None => None,
        }
    }

    pub fn new(asset_dir: String, assets: Table<Vec<u8>>, now: u64) -> (r: Agent)
        requires
            assets.wf(),
        ensures
            r.inv(),
            r.pending() is None,
            r.spec_now() == now,
            r.spec_asset_dir() == asset_dir@,
            forall|p: Seq<char>| #[trigger] r.spec_asset(p) == (match assets.spec_get(p) {
                Some(v) => Some(v@),
                None => None,
            }),
    {
        Agent { asset_dir, assets, state: None, now }
    }
}

impl Processor for Agent {
    type Item = ExtractRequest;

    open spec fn inv(&self) -> bool {
        Agent::inv(self)
    }

    fn set(&mut self, request: ExtractRequest) -> (r: Result<(Task, String, String), String>)
        ensures
            r is Ok,
            final(self).spec_now() == old(self).spec_now(),
            final(self).spec_asset_dir() == old(self).spec_asset_dir(),
            forall|p: Seq<char>| #[trigger] final(self).spec_asset(p) == old(self).spec_asset(p),
            r matches Ok((task, key, label)) ==> {
                &&& task.stored_at == old(self).spec_now()
                &&& task.process@ == "extract_crate"@
                &&& task.version@ == "1.0.0"@
                &&& task.state == TaskState::NotStarted
                &&& key@ == request.crate_name@ + ":"@ + request.crate_version@ + ":"@
                    + "extract_crate"@ + ":"@ + "1.0.0"@
                &&& label@ == "CPU UNZIP+UNTAR "@ + request.crate_name@ + ":"@
                    + request.crate_version@
                &&& final(self).pending() == Some(
                    (
                        old(self).spec_asset_dir() + "/"@ + request.crate_name@ + "/"@
                            + request.crate_version@ + "/"@ + request.download_task.process@
                            + "-"@ + request.download_task.version@ + ".crate"@,
                        key@,
                    ),
                )
            },
    {
        let dummy_task = default_persisted_extraction_task(self.now);
        let task_key = dummy_task.fq_key(
            request.crate_name.as_str(),
            request.crate_version.as_str(),
        );
        let downloaded_crate = download_file_path(
            self.asset_dir.as_str(),
            request.crate_name.as_str(),
            request.crate_version.as_str(),
            request.download_task.process.as_str(),
            request.download_task.version.as_str(),
        );
        let mut progress_info = String::new();
        progress_info.append("CPU UNZIP+UNTAR ");
        progress_info.append(request.crate_name.as_str());
        progress_info.append(":");
        progress_info.append(request.crate_version.as_str());
        let key = task_key.clone();
        self.state = Some(ProcessingState { downloaded_crate, key });
        Ok((dummy_task, task_key, progress_info))
    }

    fn process(&mut self, results: &mut TaskResultTree) -> (r: AttemptOutcome)
        ensures
            final(self).pending() is None,
            final(self).spec_now() == old(self).spec_now(),
            final(self).spec_asset_dir() == old(self).spec_asset_dir(),
            forall|p: Seq<char>| #[trigger] final(self).spec_asset(p) == old(self).spec_asset(p),
            match old(self).pending() {
                None => (r matches AttemptOutcome::Failed(m) && m@ == "no item prepared"@)
                    && *final(results) == *old(results),
                Some((asset, key)) => match old(self).spec_asset(asset) {
                    None => (r matches AttemptOutcome::Failed(m) && m@
                        == "downloaded archive is missing"@) && *final(results) == *old(results),
                    Some(bytes) => if gunzip_ok(bytes) && tar_ok(gunzip_of(bytes)) {
                        r is Done && (final(results).inner.spec_get(key) matches Some(tr) && tr@
                            == spec_exploded(tar_entries_of(gunzip_of(bytes)))) && forall|
                            k2: Seq<char>,
                        |
                            k2 != key ==> final(results).inner.spec_get(k2) == old(
                                results,
                            ).inner.spec_get(k2)
                    } else {
                        (r matches AttemptOutcome::Failed(m) && m@ == "failed to extract crate"@)
                            && *final(results) == *old(results)
                    },
                },
            },
    {
        let st = match &self.state {
            None => {
                return AttemptOutcome::Failed(String::from_str("no item prepared"));
            },
            Some(st) => st.clone(),
        };
        self.state = None;
        match self.assets.get(&st.downloaded_crate) {
            None => AttemptOutcome::Failed(String::from_str("downloaded archive is missing")),
            Some(bytes) => {
                match extract_crate(results, &st.key, bytes) {
                    Ok(()) => AttemptOutcome::Done,
                    Err(_) => AttemptOutcome::Failed(String::from_str("failed to extract crate")),
                }
            },
        }
    }

    fn idle_message(&self) -> String {
        String::from_str("CPU IDLE")
    }
}

} // verus!
