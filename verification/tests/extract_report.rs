use criner::counts::{CountsGenerator, CountsReport};
use criner::extract::{
    Agent, ExtractRequest, MAX_STORED_BYTES, default_persisted_extraction_task,
    download_file_path, extract_crate,
};
use criner::manifest::parse_manifest;
use criner::model::{ChangeKind, Crate, CrateVersion, SelectedEntry, TaskResult, TaskState, task_key, version_key};
use criner::pool::processor;
use criner::queue::BoundedQueue;
use criner::report::{
    Aggregate, WriteRequest, complete_and_write_report, crate_dir, crate_html_path, merge_reports,
    version_html_path, write_files,
};
use criner::store::{CrateVersionsTree, ReportsTree, Table, TaskResultTree, TasksTree};

fn gzipped_tar(files: &[(&str, &[u8])]) -> Vec<u8> {
    let mut builder = tar::Builder::new(Vec::new());
    for (path, content) in files {
        let mut header = tar::Header::new_gnu();
        header.set_size(content.len() as u64);
        header.set_cksum();
        builder.append_data(&mut header, path, *content).unwrap();
    }
    let tar_bytes = builder.into_inner().unwrap();
    let mut encoder = libflate::gzip::Encoder::new(Vec::new()).unwrap();
    std::io::Write::write_all(&mut encoder, &tar_bytes).unwrap();
    encoder.finish().into_result().unwrap()
}

fn selected<'a>(entries: &'a [SelectedEntry], path: &str) -> Option<&'a SelectedEntry> {
    entries.iter().find(|e| e.meta.path == path.as_bytes())
}

const MANIFEST: &str = "[package]\nname = \"demo\"\nbuild = \"my_build.rs\"\n\n[lib]\npath = \"src/lib.rs\"\n\n[[bin]]\npath = \"src/bin/tool.rs\"\n";

/// A synthetic archive whose manifest declares a library path and a binary:
/// both are captured in full, along with the two manifest files; any other
/// glob-matched path over the size bound is capped.
#[test]
fn extraction_captures_declared_paths_in_full_and_caps_the_rest() {
    let big = vec![b'x'; MAX_STORED_BYTES + 1000];
    let files: Vec<(&str, &[u8])> = vec![
        ("Cargo.toml", MANIFEST.as_bytes()),
        ("Cargo.lock", b"# lock"),
        ("src/lib.rs", b"pub fn lib_entry() {}"),
        ("src/bin/tool.rs", b"fn main() { tool() }"),
        ("src/bin/extra.rs", big.as_slice()),
        ("src/ignored.rs", b"fn ignored() {}"),
        ("my_build.rs", b"fn main() {}"),
    ];
    let archive = gzipped_tar(&files);

    let mut results = TaskResultTree::new();
    let key = task_key("demo", "1.0.0", "extract_crate", "1.0.0");
    extract_crate(&mut results, &key, &archive).unwrap();
    let result = results.get(&key).unwrap();
    let (meta, sel) = match result {
        TaskResult::ExplodedCrate { entries_meta_data, selected_entries } => {
            (entries_meta_data, selected_entries)
        }
        _ => panic!("expected an exploded crate"),
    };
    // Metadata is recorded for every entry, in archive order.
    assert_eq!(meta.len(), files.len());
    assert_eq!(meta[0].path, b"Cargo.toml");
    assert_eq!(meta[2].size, b"pub fn lib_entry() {}".len() as u64);

    // Declared and manifest paths in full.
    for path in ["Cargo.toml", "Cargo.lock", "src/lib.rs", "src/bin/tool.rs", "my_build.rs"] {
        let e = selected(sel, path).unwrap_or_else(|| panic!("missing {path}"));
        let original = files.iter().find(|(p, _)| *p == path).unwrap().1;
        assert_eq!(e.content.as_slice(), original, "{path} must be stored in full");
    }
    // A glob-matched but undeclared binary is capped at the size bound.
    let capped = selected(sel, "src/bin/extra.rs").unwrap();
    assert_eq!(capped.content.len(), MAX_STORED_BYTES);
    assert_eq!(capped.meta.size, (MAX_STORED_BYTES + 1000) as u64);
    // Unmatched paths are not captured.
    assert!(selected(sel, "src/ignored.rs").is_none());
    assert_eq!(sel.len(), 6);
}

/// Without a manifest the defaults still apply: the default library path is
/// captured when present.
#[test]
fn extraction_without_manifest_captures_only_manifest_files() {
    let files: Vec<(&str, &[u8])> = vec![
        ("src/lib.rs", b"pub fn lib_entry() {}"),
        ("README.md", b"hi"),
    ];
    let archive = gzipped_tar(&files);
    let mut results = TaskResultTree::new();
    let key = "k".to_string();
    extract_crate(&mut results, &key, &archive).unwrap();
    match results.get(&key).unwrap() {
        TaskResult::ExplodedCrate { entries_meta_data, selected_entries } => {
            assert_eq!(entries_meta_data.len(), 2);
            // No Cargo.toml entry: only the base interesting set applies and
            // neither base path is present.
            assert!(selected(selected_entries, "src/lib.rs").is_none());
            assert!(selected_entries.is_empty());
        }
        _ => panic!("expected an exploded crate"),
    }
}

#[test]
fn corrupt_archives_surface_a_decode_error_and_store_nothing() {
    let mut results = TaskResultTree::new();
    let key = "k".to_string();
    let err = extract_crate(&mut results, &key, &vec![1, 2, 3, 4]).unwrap_err();
    assert_eq!(format!("{err:?}"), "ArchiveDecode");
    assert!(results.get(&key).is_none());
}

#[test]
fn manifest_scanner_finds_declared_paths() {
    let cfg = parse_manifest(&MANIFEST.as_bytes().to_vec());
    assert_eq!(cfg.build.as_deref(), Some(b"my_build.rs".as_slice()));
    assert_eq!(cfg.lib.as_deref(), Some(b"src/lib.rs".as_slice()));
    assert_eq!(cfg.bins, vec![b"src/bin/tool.rs".to_vec()]);

    let none = parse_manifest(&b"[package]\nname = \"x\"\n".to_vec());
    assert!(none.build.is_none());
    assert!(none.lib.is_none());
    assert!(none.bins.is_empty());
}

/// Blanks at line ends and around `=` do not hide a declaration.
#[test]
fn manifest_scanner_tolerates_whitespace_variants() {
    let text = b"  [package]\nbuild=\"b.rs\"\n\t[lib]  \n  path  =\t\"l.rs\"  \n[[bin]]\npath=\"t.rs\"\n".to_vec();
    let cfg = parse_manifest(&text);
    assert_eq!(cfg.build.as_deref(), Some(b"b.rs".as_slice()));
    assert_eq!(cfg.lib.as_deref(), Some(b"l.rs".as_slice()));
    assert_eq!(cfg.bins, vec![b"t.rs".to_vec()]);

    // A longer key sharing the prefix is not mistaken for the key.
    let other = parse_manifest(&b"[package]\nbuilder = \"x\"\n[lib]\npaths = \"y\"\n".to_vec());
    assert!(other.build.is_none());
    assert!(other.lib.is_none());
}

/// The extraction agent drives the whole stage: the pool marks the task in
/// progress, the agent unpacks the asset and persists the result, and the
/// ledger ends complete.
#[test]
fn pool_runs_the_extraction_stage_end_to_end() {
    let archive = gzipped_tar(&[("Cargo.toml", MANIFEST.as_bytes())]);
    let download = criner::schedule::default_persisted_download_task(5);
    let asset_path = download_file_path("assets", "demo", "1.0.0", "download", "1.0.0");
    let mut assets: Table<Vec<u8>> = Table::new();
    assets.put(&asset_path, archive);

    let mut agent = Agent::new("assets".to_string(), assets, 5);
    let mut tasks = TasksTree::new();
    let mut results = TaskResultTree::new();
    let mut input: BoundedQueue<ExtractRequest> = BoundedQueue::new(2);
    input
        .try_send(ExtractRequest {
            download_task: download,
            crate_name: "demo".to_string(),
            crate_version: "1.0.0".to_string(),
        })
        .ok()
        .unwrap();

    let processed = processor(&mut agent, &mut tasks, &mut results, &mut input, 0, 50);
    assert_eq!(processed, 1);
    let task_key = default_persisted_extraction_task(5).fq_key("demo", "1.0.0");
    let stored = tasks.get(&task_key).unwrap();
    assert!(matches!(stored.state, TaskState::Complete));
    assert!(results.get(&task_key).is_some());
}

/// A missing asset fails that item alone, with the attempt recorded.
#[test]
fn pool_records_a_failure_for_a_missing_asset() {
    let mut agent = Agent::new("assets".to_string(), Table::new(), 5);
    let mut tasks = TasksTree::new();
    let mut results = TaskResultTree::new();
    let mut input: BoundedQueue<ExtractRequest> = BoundedQueue::new(2);
    input
        .try_send(ExtractRequest {
            download_task: criner::schedule::default_persisted_download_task(5),
            crate_name: "demo".to_string(),
            crate_version: "1.0.0".to_string(),
        })
        .ok()
        .unwrap();
    let processed = processor(&mut agent, &mut tasks, &mut results, &mut input, 0, 50);
    assert_eq!(processed, 1);
    let task_key = default_persisted_extraction_task(5).fq_key("demo", "1.0.0");
    match &tasks.get(&task_key).unwrap().state {
        TaskState::AttemptsWithFailure { count, last_error } => {
            assert_eq!(*count, 1);
            assert_eq!(last_error, "downloaded archive is missing");
        }
        _ => panic!("expected a failure record"),
    }
}

/// Merge is associative, and commutative for counter-style reports.
#[test]
fn counts_merge_is_associative_and_commutative() {
    let a = CountsReport { files: 1, bytes: 10 };
    let b = CountsReport { files: 2, bytes: 20 };
    let c = CountsReport { files: 4, bytes: u64::MAX - 15 };
    assert_eq!(a.merge(b).merge(c), a.merge(b.merge(c)));
    assert_eq!(a.merge(b), b.merge(a));
    assert_eq!(a.merge(b), CountsReport { files: 3, bytes: 30 });
    // Saturation keeps associativity at the top end.
    assert_eq!(b.merge(c).merge(c), b.merge(c.merge(c)));
}

#[test]
fn counts_render_is_decimal() {
    let r = CountsReport { files: 2, bytes: 10 };
    assert_eq!(r.complete(), b"2 10".to_vec());
    let w = complete_and_write_report(&r, "out/index.html".to_string());
    assert_eq!(w.path, "out/index.html");
    assert_eq!(w.content, b"2 10".to_vec());
}

#[test]
fn artifact_paths_follow_the_layout() {
    let dir = crate_dir(&"out".to_string(), &"demo".to_string());
    assert_eq!(dir, "out/demo");
    assert_eq!(version_html_path(&dir, &"1.0.0".to_string()), "out/demo/1.0.0.html");
    assert_eq!(crate_html_path(&dir), "out/demo/index.html");
}

fn exploded(files: u64, each_size: u64) -> TaskResult {
    let meta: Vec<criner::model::TarHeader> = (0..files)
        .map(|i| criner::model::TarHeader {
            path: format!("f{i}").into_bytes(),
            size: each_size,
            entry_type: 0,
        })
        .collect();
    TaskResult::ExplodedCrate { entries_meta_data: meta, selected_entries: vec![] }
}

struct Fixture {
    crate_versions: CrateVersionsTree,
    results: TaskResultTree,
    reports_done: ReportsTree,
    cache: Table<CountsReport>,
    krates: Vec<(String, Crate)>,
}

fn fixture() -> Fixture {
    let mut crate_versions = CrateVersionsTree::new();
    let mut results = TaskResultTree::new();
    for v in ["1", "2"] {
        crate_versions.insert(
            &version_key("demo", v),
            CrateVersion {
                name: "demo".to_string(),
                version: v.to_string(),
                kind: ChangeKind::Added,
            },
        );
    }
    // Version 3 is yanked and version 4 unknown to the store: the trailing
    // run is excluded from aggregation entirely, even though a result for
    // version 3 exists.
    crate_versions.insert(
        &version_key("demo", "3"),
        CrateVersion {
            name: "demo".to_string(),
            version: "3".to_string(),
            kind: ChangeKind::Yanked,
        },
    );
    results.insert(
        &task_key("demo", "1", "extract_crate", "1.0.0"),
        exploded(2, 5),
    );
    results.insert(
        &task_key("demo", "2", "extract_crate", "1.0.0"),
        exploded(3, 5),
    );
    results.insert(
        &task_key("demo", "3", "extract_crate", "1.0.0"),
        exploded(9, 9),
    );
    Fixture {
        crate_versions,
        results,
        reports_done: ReportsTree::new(),
        cache: Table::new(),
        krates: vec![(
            "demo".to_string(),
            Crate {
                versions: vec![
                    "1".to_string(),
                    "2".to_string(),
                    "3".to_string(),
                    "4".to_string(),
                ],
            },
        )],
    }
}

/// One pass over a chunk: a version artifact per in-scope version, one
/// crate artifact, done markers flushed, the cache refreshed.
#[test]
fn write_files_emits_version_and_crate_artifacts() {
    let mut f = fixture();
    let out = write_files::<CountsGenerator>(
        &f.krates,
        &f.crate_versions,
        &f.results,
        &mut f.reports_done,
        &mut f.cache,
        true,
        &"out".to_string(),
    )
    .unwrap();
    assert_eq!(out.chunk_report, Some(CountsReport { files: 5, bytes: 25 }));
    // No artifact and no marker for the yank-skipped versions 3 and 4.
    let paths: Vec<&str> = out.writes.iter().map(|w| w.path.as_str()).collect();
    assert_eq!(paths, vec!["out/demo/1.html", "out/demo/2.html", "out/demo/index.html"]);
    assert_eq!(out.writes[0].content, b"2 10".to_vec());
    assert_eq!(out.writes[1].content, b"3 15".to_vec());
    assert_eq!(out.writes[2].content, b"5 25".to_vec());
    assert!(f.reports_done.is_done(&ReportsTree::key("demo", "1", "counts", "1.0.0")));
    assert!(f.reports_done.is_done(&ReportsTree::key("demo", "2", "counts", "1.0.0")));
    assert!(!f.reports_done.is_done(&ReportsTree::key("demo", "3", "counts", "1.0.0")));
    assert_eq!(f.cache.get(&"demo".to_string()), Some(&CountsReport { files: 5, bytes: 25 }));
}

/// Writing a crate-level report, reloading its cached state, and merging a
/// second chunk equals merging both chunks directly.
#[test]
fn cache_round_trip_equals_direct_merge() {
    // Incremental: first pass sees only version 1; the second pass, with
    // version 2's result arrived, merges against the cached state.
    let mut f = fixture();
    let late = f.results.get(&task_key("demo", "2", "extract_crate", "1.0.0")).unwrap();
    let late = match late {
        TaskResult::ExplodedCrate { .. } => exploded(3, 5),
        _ => unreachable!(),
    };
    let mut early_results = TaskResultTree::new();
    early_results.insert(&task_key("demo", "1", "extract_crate", "1.0.0"), exploded(2, 5));

    let first = write_files::<CountsGenerator>(
        &f.krates,
        &f.crate_versions,
        &early_results,
        &mut f.reports_done,
        &mut f.cache,
        true,
        &"out".to_string(),
    )
    .unwrap();
    assert_eq!(first.chunk_report, Some(CountsReport { files: 2, bytes: 10 }));

    let mut full_results = early_results;
    full_results.insert(&task_key("demo", "2", "extract_crate", "1.0.0"), late);
    let second = write_files::<CountsGenerator>(
        &f.krates,
        &f.crate_versions,
        &full_results,
        &mut f.reports_done,
        &mut f.cache,
        true,
        &"out".to_string(),
    )
    .unwrap();
    // Version 1 is marked done, so only version 2 is recomputed...
    assert_eq!(second.chunk_report, Some(CountsReport { files: 3, bytes: 15 }));
    // ...and the crate-level artifact merged with the cache equals the
    // direct merge of both chunks.
    let crate_write = second.writes.iter().find(|w| w.path == "out/demo/index.html").unwrap();
    assert_eq!(crate_write.content, b"5 25".to_vec());
    assert_eq!(f.cache.get(&"demo".to_string()), Some(&CountsReport { files: 5, bytes: 25 }));

    // The same total as one uncached pass over everything.
    let mut g = fixture();
    let direct = write_files::<CountsGenerator>(
        &g.krates,
        &g.crate_versions,
        &g.results,
        &mut g.reports_done,
        &mut g.cache,
        true,
        &"out".to_string(),
    )
    .unwrap();
    assert_eq!(direct.chunk_report, Some(CountsReport { files: 5, bytes: 25 }));
    assert_eq!(g.cache.get(&"demo".to_string()), f.cache.get(&"demo".to_string()));
}

/// Without a cache directory reports are always produced and no marker or
/// cache state is touched.
#[test]
fn absent_cache_forces_recomputation_without_marking() {
    let mut f = fixture();
    let first = write_files::<CountsGenerator>(
        &f.krates,
        &f.crate_versions,
        &f.results,
        &mut f.reports_done,
        &mut f.cache,
        false,
        &"out".to_string(),
    )
    .unwrap();
    assert_eq!(first.chunk_report, Some(CountsReport { files: 5, bytes: 25 }));
    assert!(f.reports_done.is_done(&ReportsTree::key("demo", "1", "counts", "1.0.0")));
    assert_eq!(f.cache.count(), 0);
    // Markers were still flushed, but with the cache off the next pass
    // recomputes anyway.
    let second = write_files::<CountsGenerator>(
        &f.krates,
        &f.crate_versions,
        &f.results,
        &mut f.reports_done,
        &mut f.cache,
        false,
        &"out".to_string(),
    )
    .unwrap();
    assert_eq!(second.chunk_report, Some(CountsReport { files: 5, bytes: 25 }));
}

/// The global merge drains per-chunk reports, skips failed chunks, merges
/// against previous state and emits the top-level artifact.
#[test]
fn merge_reports_merges_chunks_and_counts_failures() {
    let chunks: Vec<Result<Option<CountsReport>, String>> = vec![
        Ok(Some(CountsReport { files: 1, bytes: 5 })),
        Ok(None),
        Err("one chunk failed".to_string()),
        Ok(Some(CountsReport { files: 2, bytes: 10 })),
    ];
    let (out, failures) = merge_reports(
        chunks,
        Some(CountsReport { files: 10, bytes: 100 }),
        &"out".to_string(),
    );
    assert_eq!(failures, 1);
    let (write, cached): (WriteRequest, CountsReport) = out.unwrap();
    assert_eq!(cached, CountsReport { files: 13, bytes: 115 });
    assert_eq!(write.path, "out/index.html");
    assert_eq!(write.content, b"13 115".to_vec());

    let (none, failures) = merge_reports::<CountsReport>(vec![Ok(None)], None, &"out".to_string());
    assert!(none.is_none());
    assert_eq!(failures, 0);
}

/// When no chunk yielded a report, nothing is written — even with a
/// previously cached top-level state on hand.
#[test]
fn merge_reports_writes_nothing_when_nothing_was_drained() {
    let chunks: Vec<Result<Option<CountsReport>, String>> = vec![
        Ok(None),
        Err("one chunk failed".to_string()),
    ];
    let (out, failures) = merge_reports(
        chunks,
        Some(CountsReport { files: 10, bytes: 100 }),
        &"out".to_string(),
    );
    assert!(out.is_none());
    assert_eq!(failures, 1);

    let (out, failures) = merge_reports::<CountsReport>(vec![], None, &"out".to_string());
    assert!(out.is_none());
    assert_eq!(failures, 0);
}
