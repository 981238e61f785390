//! A small scanner for the package manifest: enough of its table/key
//! structure to discover the declared build-script, library-entry and
//! binary-entry source paths. Each line is trimmed and classified against
//! the current table: a `build = "…"` key under `[package]`, a
//! `path = "…"` key under `[lib]` or under each `[[bin]]` table, with
//! blanks around the `=` free. The first `build` and `path` declarations
//! win; every binary path is collected in order.

use vstd::prelude::*;

verus! {

/// Which manifest table the scanner is inside.
#[derive(Clone, Copy, PartialEq, Eq, Structural)]
pub enum Section {
    Package,
    Lib,
    Bin,
    Other,
}

/// The bytes of the line `[package]`.
pub open spec fn package_marker() -> Seq<u8> {
    seq![91u8, 112u8, 97u8, 99u8, 107u8, 97u8, 103u8, 101u8, 93u8]
}

/// The bytes of the line `[lib]`.
pub open spec fn lib_marker() -> Seq<u8> {
    seq![91u8, 108u8, 105u8, 98u8, 93u8]
}

/// The bytes of the line `[[bin]]`.
pub open spec fn bin_marker() -> Seq<u8> {
    seq![91u8, 91u8, 98u8, 105u8, 110u8, 93u8, 93u8]
}

/// The bytes of the key name `build`.
pub open spec fn build_key() -> Seq<u8> {
    seq![98u8, 117u8, 105u8, 108u8, 100u8]
}

/// The bytes of the key name `path`.
pub open spec fn path_key() -> Seq<u8> {
    seq![112u8, 97u8, 116u8, 104u8]
}

/// A space or a tab.
pub open spec fn spec_is_ws(b: u8) -> bool {
    b == 32u8 || b == 9u8
}

/// The position of the first non-blank byte at or after `i`, or the
/// length.
pub open spec fn spec_skip_ws(s: Seq<u8>, i: int) -> int
    decreases s.len() - i,
{
    if i < 0 || i >= s.len() {
        s.len() as int
    } else if spec_is_ws(s[i]) {
        spec_skip_ws(s, i + 1)
    } else {
        i
    }
}

/// The position just past the last non-blank byte before `j`.
pub open spec fn spec_ws_end(s: Seq<u8>, j: int) -> int
    decreases j,
{
    if j <= 0 {
        0
    } else if spec_is_ws(s[j - 1]) {
        spec_ws_end(s, j - 1)
    } else {
        j
    }
}

/// The line with leading and trailing blanks removed.
pub open spec fn spec_trim(s: Seq<u8>) -> Seq<u8> {
    let start = spec_skip_ws(s, 0);
    let end = spec_ws_end(s, s.len() as int);
    if start < end {
        s.subrange(start, end)
    } else {
        Seq::empty()
    }
}

/// The quoted value of a `<key> = "…"` line (blanks around `=` free), if
/// the line has that form.
pub open spec fn spec_key_value(core: Seq<u8>, key: Seq<u8>) -> Option<Seq<u8>> {
    if core.len() >= key.len() && core.take(key.len() as int) == key {
        let i = spec_skip_ws(core, key.len() as int);
        if i < core.len() && core[i] == 61u8 {
            let j = spec_skip_ws(core, i + 1);
            if j < core.len() && core[j] == 34u8 && core.len() >= j + 2 && core.last() == 34u8 {
                Some(core.subrange(j + 1, core.len() - 1))
            } else {
                None
            }
        } else {
            None
        }
    } else {
        None
    }
}

/// The source paths a manifest declares.
pub ghost struct ManifestPaths {
    pub build: Option<Seq<u8>>,
    pub lib: Option<Seq<u8>>,
    pub bins: Seq<Seq<u8>>,
}

/// The table that a (trimmed) line leaves the scanner in.
pub open spec fn spec_section_of(core: Seq<u8>, cur: Section) -> Section {
    if core.len() > 0 && core[0] == 91u8 {
        if core == lib_marker() {
            Section::Lib
        } else if core == bin_marker() {
            Section::Bin
        } else if core == package_marker() {
            Section::Package
        } else {
            Section::Other
        }
    } else {
        cur
    }
}

/// What one line contributes, blanks at either end and around `=` ignored:
/// a section header switches tables; a `build` key under `[package]` or a
/// `path` key under `[lib]` is kept if it is the first; a `path` key under
/// a `[[bin]]` table is appended.
pub open spec fn spec_line_step(line: Seq<u8>, sec: Section, acc: ManifestPaths) -> (
    Section,
    ManifestPaths,
) {
    let core = spec_trim(line);
    if core.len() > 0 && core[0] == 91u8 {
        (spec_section_of(core, sec), acc)
    } else if sec == Section::Package && spec_key_value(core, build_key()) is Some {
        (
            sec,
            if acc.build is None {
                ManifestPaths { build: spec_key_value(core, build_key()), ..acc }
            } else {
                acc
            },
        )
    } else if sec == Section::Lib && spec_key_value(core, path_key()) is Some {
        (
            sec,
            if acc.lib is None {
                ManifestPaths { lib: spec_key_value(core, path_key()), ..acc }
            } else {
                acc
            },
        )
    } else if sec == Section::Bin && spec_key_value(core, path_key()) is Some {
        (
            sec,
            ManifestPaths {
                bins: acc.bins.push(spec_key_value(core, path_key())->Some_0),
                ..acc
            },
        )
    } else {
        (sec, acc)
    }
}

/// The position of the first newline at or after `i`, or the length.
pub open spec fn spec_find_nl(s: Seq<u8>, i: int) -> int
    decreases s.len() - i,
{
    if i < 0 || i >= s.len() {
        s.len() as int
    } else if s[i] == 10u8 {
        i
    } else {
        spec_find_nl(s, i + 1)
    }
}

pub proof fn lemma_find_nl(s: Seq<u8>, i: int)
    requires
        0 <= i <= s.len(),
    ensures
        i <= spec_find_nl(s, i) <= s.len(),
    decreases s.len() - i,
{
    if i < s.len() && s[i] != 10u8 {
        lemma_find_nl(s, i + 1);
    }
}

/// The paths declared from byte `i` on, given the current table and what
/// was declared before.
pub open spec fn spec_scan(s: Seq<u8>, i: int, sec: Section, acc: ManifestPaths) -> ManifestPaths
    decreases s.len() + 1 - i,
{
    if i < 0 || i >= s.len() {
        acc
    } else {
        let j0 = spec_find_nl(s, i);
        let j = if j0 < i {
            i
        } else if j0 > s.len() {
            s.len() as int
        } else {
            j0
        };
        let step = spec_line_step(s.subrange(i, j), sec, acc);
        spec_scan(s, j + 1, step.0, step.1)
    }
}

/// The source paths a whole manifest declares. Keys before the first table
/// header belong to no table and are ignored.
pub open spec fn spec_manifest_paths(s: Seq<u8>) -> ManifestPaths {
    spec_scan(s, 0, Section::Other, ManifestPaths { build: None, lib: None, bins: Seq::empty() })
}

/// The declared source paths of one manifest.
pub struct CargoConfig {
    pub build: Option<Vec<u8>>,
    pub lib: Option<Vec<u8>>,
    pub bins: Vec<Vec<u8>>,
}

impl View for CargoConfig {
    type V = ManifestPaths;

    open spec fn view(&self) -> ManifestPaths {
        ManifestPaths {
            build: match self.build {
                Some(b) => Some(b@),
                None => None,
            },
            lib: match self.lib {
                Some(l) => Some(l@),
                None => None,
            },
            bins: self.bins@.map_values(|b: Vec<u8>| b@),
        }
    }
}

/// Whether two byte strings read the same.
pub fn bytes_eq(a: &Vec<u8>, b: &Vec<u8>) -> (r: bool)
    ensures
        r == (a@ == b@),
{
    if a.len() != b.len() {
        proof {
            assert(a@ != b@);
        }
        return false;
    }
    let mut i: usize = 0;
    while i < a.len()
        invariant
            a@.len() == b@.len(),
            i <= a@.len(),
            forall|j: int| 0 <= j < i ==> a@[j] == b@[j],
        decreases a@.len() - i,
    {
        if a[i] != b[i] {
            return false;
        }
        i += 1;
    }
    proof {
        assert(a@ =~= b@);
    }
    true
}

/// Whether `a` begins with `p`.
pub fn bytes_starts_with(a: &Vec<u8>, p: &Vec<u8>) -> (r: bool)
    ensures
        r == (a@.len() >= p@.len() && a@.take(p@.len() as int) == p@),
{
    if a.len() < p.len() {
        return false;
    }
    let mut i: usize = 0;
    while i < p.len()
        invariant
            a@.len() >= p@.len(),
            i <= p@.len(),
            forall|j: int| 0 <= j < i ==> a@[j] == p@[j],
        decreases p@.len() - i,
    {
        if a[i] != p[i] {
            proof {
                assert(a@.take(p@.len() as int)[i as int] != p@[i as int]);
            }
            return false;
        }
        i += 1;
    }
    proof {
        assert(a@.take(p@.len() as int) =~= p@);
    }
    true
}

/// The bytes of `[package]`.
pub fn package_marker_bytes() -> (r: Vec<u8>)
    ensures
        r@ == package_marker(),
{
    let r: Vec<u8> = vec![91u8, 112u8, 97u8, 99u8, 107u8, 97u8, 103u8, 101u8, 93u8];
    proof {
        assert(r@ =~= package_marker());
    }
    r
}

/// The bytes of `[lib]`.
pub fn lib_marker_bytes() -> (r: Vec<u8>)
    ensures
        r@ == lib_marker(),
{
    let r: Vec<u8> = vec![91u8, 108u8, 105u8, 98u8, 93u8];
    proof {
        assert(r@ =~= lib_marker());
    }
    r
}

/// The bytes of `[[bin]]`.
pub fn bin_marker_bytes() -> (r: Vec<u8>)
    ensures
        r@ == bin_marker(),
{
    let r: Vec<u8> = vec![91u8, 91u8, 98u8, 105u8, 110u8, 93u8, 93u8];
    proof {
        assert(r@ =~= bin_marker());
    }
    r
}

/// The bytes of the key name `build`.
pub fn build_key_bytes() -> (r: Vec<u8>)
    ensures
        r@ == build_key(),
{
    let r: Vec<u8> = vec![98u8, 117u8, 105u8, 108u8, 100u8];
    proof {
        assert(r@ =~= build_key());
    }
    r
}

/// The bytes of the key name `path`.
pub fn path_key_bytes() -> (r: Vec<u8>)
    ensures
        r@ == path_key(),
{
    let r: Vec<u8> = vec![112u8, 97u8, 116u8, 104u8];
    proof {
        assert(r@ =~= path_key());
    }
    r
}

/// The first non-blank position at or after `from`.
fn skip_ws(s: &Vec<u8>, from: usize) -> (r: usize)
    requires
        from <= s@.len(),
    ensures
        r == spec_skip_ws(s@, from as int),
        from <= r <= s@.len(),
{
    let mut i: usize = from;
    while i < s.len() && (s[i] == 32u8 || s[i] == 9u8)
        invariant
            from <= i <= s@.len(),
            spec_skip_ws(s@, from as int) == spec_skip_ws(s@, i as int),
        decreases s@.len() - i,
    {
        i += 1;
    }
    i
}

/// Strip leading and trailing blanks from a line.
pub fn trim_bytes(s: &Vec<u8>) -> (r: Vec<u8>)
    ensures
        r@ == spec_trim(s@),
{
    let start = skip_ws(s, 0);
    let mut end: usize = s.len();
    while end > 0 && (s[end - 1] == 32u8 || s[end - 1] == 9u8)
        invariant
            end <= s@.len(),
            spec_ws_end(s@, s@.len() as int) == spec_ws_end(s@, end as int),
        decreases end,
    {
        end -= 1;
    }
    if start < end {
        copy_range(s, start, end)
    } else {
        let r: Vec<u8> = Vec::new();
        proof {
            assert(r@ =~= spec_trim(s@));
        }
        r
    }
}

/// The quoted value of a trimmed `<key> = "…"` line, if it has that form.
fn quoted_value(core: &Vec<u8>, key: &Vec<u8>) -> (r: Option<Vec<u8>>)
    ensures
        match r {
            Some(v) => spec_key_value(core@, key@) == Some(v@),
            None => spec_key_value(core@, key@) is None,
        },
{
    if !bytes_starts_with(core, key) {
        return None;
    }
    let i = skip_ws(core, key.len());
    if i >= core.len() || core[i] != 61u8 {
        return None;
    }
    let j = skip_ws(core, i + 1);
    if j < core.len() && core[j] == 34u8 && j + 1 < core.len() && core[core.len() - 1] == 34u8 {
        proof {
            assert(core@.last() == core@[core@.len() - 1]);
        }
        Some(copy_range(core, j + 1, core.len() - 1))
    } else {
        None
    }
}

/// A copy of `s[from..to]`.
pub fn copy_range(s: &Vec<u8>, from: usize, to: usize) -> (r: Vec<u8>)
    requires
        from <= to <= s@.len(),
    ensures
        r@ == s@.subrange(from as int, to as int),
{
    let mut r: Vec<u8> = Vec::new();
    let mut i: usize = from;
    while i < to
        invariant
            from <= i <= to <= s@.len(),
            r@ =~= s@.subrange(from as int, i as int),
        decreases to - i,
    {
        r.push(s[i]);
        i += 1;
        proof {
            assert(r@ =~= s@.subrange(from as int, i as int));
        }
    }
    proof {
        assert(r@ =~= s@.subrange(from as int, to as int));
    }
    r
}

/// A copy of a whole byte string.
pub fn clone_bytes(v: &Vec<u8>) -> (r: Vec<u8>)
    ensures
        r@ == v@,
{
    let r = copy_range(v, 0, v.len());
    proof {
        assert(v@.subrange(0, v@.len() as int) =~= v@);
    }
    r
}

/// Apply one line to the scanner state, returning the table the scanner is
/// in afterwards.
fn line_step(line: &Vec<u8>, sec: Section, cfg: &mut CargoConfig) -> (r: Section)
    ensures
        (r, final(cfg)@) == spec_line_step(line@, sec, old(cfg)@),
{
    let core = trim_bytes(line);
    if core.len() > 0 && core[0] == 91u8 {
        let sec2 = if bytes_eq(&core, &lib_marker_bytes()) {
            Section::Lib
        } else if bytes_eq(&core, &bin_marker_bytes()) {
            Section::Bin
        } else if bytes_eq(&core, &package_marker_bytes()) {
            Section::Package
        } else {
            Section::Other
        };
        return sec2;
    }
    if matches!(sec, Section::Package) {
        match quoted_value(&core, &build_key_bytes()) {
            Some(value) => {
                if matches!(cfg.build, None) {
                    cfg.build = Some(value);
                }
            },
            None => {},
        }
        return sec;
    }
    if matches!(sec, Section::Lib) {
        match quoted_value(&core, &path_key_bytes()) {
            Some(value) => {
                if matches!(cfg.lib, None) {
                    cfg.lib = Some(value);
                }
            },
            None => {},
        }
        return sec;
    }
    if matches!(sec, Section::Bin) {
        match quoted_value(&core, &path_key_bytes()) {
            Some(value) => {
                let ghost before = cfg@;
                cfg.bins.push(value);
                proof {
                    assert(cfg@.bins =~= before.bins.push(
                        spec_key_value(spec_trim(line@), path_key())->Some_0,
                    ));
                }
            },
            None => {},
        }
        return sec;
    }
    sec
}

/// The position of the first newline at or after `from`.
fn find_nl(s: &Vec<u8>, from: usize) -> (r: usize)
    requires
        from <= s@.len(),
    ensures
        r == spec_find_nl(s@, from as int),
        from <= r <= s@.len(),
{
    let mut i: usize = from;
    while i < s.len()
        invariant
            from <= i <= s@.len(),
            spec_find_nl(s@, from as int) == spec_find_nl(s@, i as int),
        decreases s@.len() - i,
    {
        if s[i] == 10u8 {
            return i;
        }
        i += 1;
    }
    s.len()
}

/// Scan a whole manifest for the source paths it declares.
pub fn parse_manifest(s: &Vec<u8>) -> (r: CargoConfig)
    ensures
        r@ == spec_manifest_paths(s@),
{
    let mut cfg = CargoConfig { build: None, lib: None, bins: Vec::new() };
    let mut sec = Section::Other;
    let mut i: usize = 0;
    proof {
        assert(cfg@.bins =~= Seq::<Seq<u8>>::empty());
        assert(cfg@ == (ManifestPaths { build: None, lib: None, bins: Seq::empty() }));
    }
    loop
        invariant
            i <= s@.len() + 1,
            spec_manifest_paths(s@) == spec_scan(s@, i as int, sec, cfg@),
        decreases s@.len() + 1 - i,
    {
        if i >= s.len() {
            return cfg;
        }
        let j = find_nl(s, i);
        proof {
            lemma_find_nl(s@, i as int);
        }
        let ghost pre_sec = sec;
        let ghost pre_cfg = cfg@;
        let line = copy_range(s, i, j);
        let sec2 = line_step(&line, sec, &mut cfg);
        sec = sec2;
        proof {
            assert(spec_line_step(s@.subrange(i as int, j as int), pre_sec, pre_cfg) == (
                sec,
                cfg@,
            ));
            assert(spec_scan(s@, i as int, pre_sec, pre_cfg) == spec_scan(
                s@,
                j as int + 1,
                sec,
                cfg@,
            ));
        }
        if j == s.len() {
            proof {
                assert(spec_scan(s@, j as int + 1, sec, cfg@) == cfg@);
            }
            return cfg;
        }
        i = j + 1;
    }
}

} // verus!
