//! A concrete report: per-version file and byte counts over extraction
//! results, merged by saturating addition. It is the pipeline's smallest
//! aggregable report and exercises the whole aggregation engine.

use vstd::prelude::*;
use crate::model::{TaskResult, spec_sat_add, sat_add, TarHeader};
use crate::report::{Aggregate, Generator};
use crate::model::task_key;

verus! {

/// The decimal digits of `n`, most significant first.
pub open spec fn spec_digits(n: u64) -> Seq<u8>
    decreases n,
{
    if n < 10 {
        seq![(48 + n) as u8]
    } else {
        spec_digits(n / 10).push((48 + n % 10) as u8)
    }
}

/// Render a count in decimal.
pub fn render_u64(n: u64) -> (r: Vec<u8>)
    ensures
        r@ == spec_digits(n),
    decreases n,
{
    if n < 10 {
        let r: Vec<u8> = vec![(48 + n) as u8];
        proof {
            assert(r@ =~= spec_digits(n));
        }
        r
    } else {
        let mut r = render_u64(n / 10);
        r.push((48 + n % 10) as u8);
        r
    }
}

/// How many files an archive held and how many bytes they declare.
#[derive(Clone, Copy, PartialEq, Eq, Structural, Debug)]
pub struct CountsReport {
    pub files: u64,
    pub bytes: u64,
}

impl Aggregate for CountsReport {
    open spec fn merged(self, other: Self) -> Self {
        CountsReport {
            files: spec_sat_add(self.files, other.files),
            bytes: spec_sat_add(self.bytes, other.bytes),
        }
    }

    open spec fn rendered(self) -> Seq<u8> {
        spec_digits(self.files) + seq![32u8] + spec_digits(self.bytes)
    }

    proof fn lemma_merge_assoc(a: Self, b: Self, c: Self) {
    }

    proof fn lemma_merge_comm(a: Self, b: Self) {
    }

    fn merge(self, other: Self) -> (r: Self) {
        CountsReport {
            files: sat_add(self.files, other.files),
            bytes: sat_add(self.bytes, other.bytes),
        }
    }

    fn duplicate(&self) -> (r: Self) {
        CountsReport { files: self.files, bytes: self.bytes }
    }

    fn complete(&self) -> (out: Vec<u8>) {
        let mut out = render_u64(self.files);
        let mut tail = render_u64(self.bytes);
        out.push(32u8);
        out.append(&mut tail);
        proof {
            assert(out@ =~= self.rendered());
        }
        out
    }
}

/// The saturating total of the declared entry sizes of `metas[0..to]`.
pub open spec fn spec_size_sum(metas: Seq<crate::model::TarHeaderView>, to: int) -> u64
    decreases to,
{
    if to <= 0 {
        0
    } else {
        spec_sat_add(spec_size_sum(metas, to - 1), metas[to - 1].size)
    }
}

/// The counts report of one extraction result: the number of recorded
/// entries and the saturating sum of their declared sizes. Other result
/// kinds carry no file data and yield no report.
pub open spec fn spec_counts_of(result: TaskResult) -> Option<CountsReport> {
    match result {
        TaskResult::ExplodedCrate { entries_meta_data, selected_entries } => Some(
            CountsReport {
                files: entries_meta_data@.map_values(|h: TarHeader| h@).len() as u64,
                bytes: spec_size_sum(
                    entries_meta_data@.map_values(|h: TarHeader| h@),
                    entries_meta_data@.len() as int,
                ),
            },
        ),
        _ => None,
    }
}

/// The generator of `CountsReport`s from stored extraction results.
pub struct CountsGenerator;

impl Generator for CountsGenerator {
    type Report = CountsReport;

    open spec fn spec_name() -> Seq<char> {
        "counts"@
    }

    open spec fn spec_version() -> Seq<char> {
        "1.0.0"@
    }

    fn name() -> (r: String) {
        String::from_str("counts")
    }

    fn version() -> (r: String) {
        String::from_str("1.0.0")
    }

    open spec fn spec_result_key(crate_name: Seq<char>, crate_version: Seq<char>) -> Seq<char> {
        crate_name + ":"@ + crate_version + ":"@ + "extract_crate"@ + ":"@ + "1.0.0"@
    }

    fn fq_result_key(crate_name: &String, crate_version: &String) -> (r: String) {
        task_key(crate_name.as_str(), crate_version.as_str(), "extract_crate", "1.0.0")
    }

    open spec fn spec_generate(
        crate_name: Seq<char>,
        crate_version: Seq<char>,
        result: TaskResult,
    ) -> Option<CountsReport> {
        spec_counts_of(result)
    }

    fn generate_report(crate_name: &String, crate_version: &String, result: &TaskResult) -> (r:
        Result<CountsReport, String>) {
        match result {
            TaskResult::ExplodedCrate { entries_meta_data, selected_entries } => {
                let ghost metas = entries_meta_data@.map_values(|h: TarHeader| h@);
                let mut bytes: u64 = 0;
                let mut i: usize = 0;
                while i < entries_meta_data.len()
                    invariant
                        metas == entries_meta_data@.map_values(|h: TarHeader| h@),
                        i <= metas.len(),
                        bytes == spec_size_sum(metas, i as int),
                    decreases metas.len() - i,
                {
                    proof {
                        assert(metas[i as int] == entries_meta_data@[i as int]@);
                    }
                    bytes = sat_add(bytes, entries_meta_data[i].size);
                    i += 1;
                }
                Ok(CountsReport { files: entries_meta_data.len() as u64, bytes })
            },
            _ => Err(String::from_str("task result holds no extracted entries")),
        }
    }
}

} // verus!
