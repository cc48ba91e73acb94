//! The distribution of commit sizes: files changed and lines touched.

use vstd::prelude::*;
use crate::analysis::{AnalyzerTrait, IntoAnalyzer};
use crate::config::{Globals, RepoOptions};
use crate::model::{CommitId, CommitMeta, Control, Error, Setting};
use crate::stats::{
    ascending_values, max_of, median, median_of, min_of, percentile_at, percentile_of_sorted, sort, sorted,
    valid_percentile, Median, FULL,
};
use crate::sums::total;

verus! {

/// What the repository reports for the changes of one commit.
#[derive(Clone, Copy, Debug, PartialEq, Eq, Structural)]
pub struct DiffStats {
    pub files_changed: u64,
    pub lines_added: u64,
    pub lines_removed: u64,
}

/// A commit with the statistics of its changes against its base tree.
pub struct Measured {
    pub commit: CommitMeta,
    pub stats: DiffStats,
}

/// The sizes of the commits seen so far, in walk order.
pub struct Sizes {
    pub lines: Vec<u32>,
    pub files: Vec<u32>,
}

/// The sizes as values.
pub struct SizesView {
    pub lines: Seq<u32>,
    pub files: Seq<u32>,
}

impl View for Sizes {
    type V = SizesView;

    open spec fn view(&self) -> SizesView {
        SizesView { lines: self.lines@, files: self.files@ }
    }
}

/// A mean, kept exactly: the sum of the values and their number.
#[derive(Clone, Copy, Debug, PartialEq, Eq, Structural)]
pub struct Mean {
    pub sum: u128,
    pub count: u64,
}

/// The sizes of the commits of a run.
pub struct Summary {
    pub min_files: u32,
    pub max_files: u32,
    pub avg_files: Mean,
    pub median_files: Median,
    pub min_lines: u32,
    pub max_lines: u32,
    pub avg_lines: Mean,
    pub median_lines: Median,
    /// For each percentile asked for, in thousandths of a percent, the line
    /// count at it. Absent when none was asked for or no commit was seen.
    pub line_percentiles: Option<Vec<(i64, u32)>>,
}

/// What a commit-size analysis is asked to do.
#[derive(Clone, Debug)]
pub struct Options {
    pub repo: RepoOptions,
    /// Percentiles of the line counts to report, in thousandths of a percent.
    pub percentiles: Option<Vec<i64>>,
}

/// A commit-size analysis.
#[derive(Clone, Debug)]
pub struct Analyzer {
    pub opts: Options,
    pub globals: Globals,
}

/// Every percentile asked for lies between 0 and 100 percent.
pub open spec fn percentiles_valid(percentiles: Option<Vec<i64>>) -> bool {
    match percentiles {
        Some(pcts) => forall|i: int| 0 <= i < pcts@.len() ==> valid_percentile(#[trigger] pcts@[i]),
        None => true,
    }
}

impl Options {
    /// Checks the options before a walk begins: a percentile outside 0 to
    /// 100 percent is refused.
    pub fn validate(&self) -> (checked: Result<(), Error>)
        ensures
            percentiles_valid(self.percentiles) ==> checked is Ok,
            !percentiles_valid(self.percentiles) ==> checked == Err::<(), Error>(
                Error::invalid(Setting::Percentile),
            ),
    {
        match &self.percentiles {
            Some(pcts) => {
                let mut i: usize = 0;
                while i < pcts.len()
                    invariant
                        self.percentiles == Some(*pcts),
                        i <= pcts@.len(),
                        forall|j: int| 0 <= j < i ==> valid_percentile(#[trigger] pcts@[j]),
                    decreases pcts@.len() - i,
                {
                    if pcts[i] < 0 || pcts[i] > FULL {
                        assert(!valid_percentile(pcts@[i as int]));
                        assert(self.percentiles->0@[i as int] == pcts@[i as int]);
                        return Err(Error::invalid_configuration(Setting::Percentile));
                    }
                    i += 1;
                }
                Ok(())
            },
            None => Ok(()),
        }
    }
}

/// The counts as numbers.
pub open spec fn numbers(values: Seq<u32>) -> Seq<nat> {
    Seq::new(values.len(), |i: int| values[i] as nat)
}

/// The mean of the values, exactly.
pub open spec fn mean_of(values: Seq<u32>) -> Mean {
    Mean { sum: total(numbers(values)) as u128, count: values.len() as u64 }
}

/// A number of lines or files as a counter holds it.
pub open spec fn counter(n: int) -> u32 {
    if n > u32::MAX {
        u32::MAX
    } else {
        n as u32
    }
}

/// What the summary reports for each percentile asked for.
pub open spec fn percentile_rows(lines: Seq<u32>, pcts: Seq<i64>) -> Seq<(i64, u32)> {
    Seq::new(pcts.len(), |i: int| (pcts[i], percentile_at(sorted(lines), pcts[i])))
}

/// Finds the smallest and the largest value and the exact mean.
fn extremes(values: &Vec<u32>) -> (out: (u32, u32, Mean))
    ensures
        out.0 == min_of(values@),
        out.1 == max_of(values@),
        out.2 == mean_of(values@),
{
    let mut min: u32 = 0;
    let mut max: u32 = 0;
    let mut sum: u128 = 0;
    let mut i: usize = 0;
    while i < values.len()
        invariant
            i <= values@.len(),
            min == min_of(values@.take(i as int)),
            max == max_of(values@.take(i as int)),
            sum == total(numbers(values@.take(i as int))),
            sum <= i * 0x1_0000_0000,
        decreases values@.len() - i,
    {
        let v = values[i];
        proof {
            let now = values@.take(i + 1);
            assert(now.drop_last() =~= values@.take(i as int));
            assert(now.last() == v);
            assert(numbers(now).drop_last() =~= numbers(values@.take(i as int)));
            assert(numbers(now).last() == v as nat);
        }
        if i == 0 {
            min = v;
            max = v;
        } else {
            if v < min {
                min = v;
            }
            if v > max {
                max = v;
            }
        }
        sum = sum + v as u128;
        i += 1;
    }
    proof {
        assert(values@.take(i as int) =~= values@);
    }
    (min, max, Mean { sum, count: values.len() as u64 })
}

impl Analyzer {
    /// An analysis with the given options.
    pub fn new(opts: Options, globals: Globals) -> (analyzer: Analyzer)
        ensures
            analyzer.opts == opts,
            analyzer.globals == globals,
    {
        Analyzer { opts, globals }
    }

    /// Records the size of a commit: the files changed, and the lines added
    /// and removed together. A count beyond a counter's range is held at its
    /// largest value.
    pub fn process_commit(stats: DiffStats, lines: &mut Vec<u32>, files: &mut Vec<u32>)
        ensures
            final(files)@ == old(files)@.push(counter(stats.files_changed as int)),
            final(lines)@ == old(lines)@.push(counter(stats.lines_added + stats.lines_removed)),
    {
        let f = if stats.files_changed > u32::MAX as u64 {
            u32::MAX
        } else {
            stats.files_changed as u32
        };
        let l = if stats.lines_added > u32::MAX as u64 || stats.lines_removed > u32::MAX as u64
            - stats.lines_added {
            u32::MAX
        } else {
            (stats.lines_added + stats.lines_removed) as u32
        };
        files.push(f);
        lines.push(l);
    }

    /// Summarizes the sizes of the commits seen: smallest, largest, mean and
    /// median of both counts, and the percentiles asked for of the line
    /// counts. Without commits everything is zero and no percentile is
    /// given.
    pub fn build_summary(&self, lines: Vec<u32>, files: Vec<u32>) -> (summary: Summary)
        requires
            percentiles_valid(self.opts.percentiles),
        ensures
            summarizes(self.opts.percentiles, (SizesView { lines: lines@, files: files@ }), summary),
    {
        let (min_files, max_files, avg_files) = extremes(&files);
        let median_files = median(&files);
        let (min_lines, max_lines, avg_lines) = extremes(&lines);
        let median_lines = median(&lines);
        let line_percentiles = if lines.len() == 0 {
            None
        } else {
            match &self.opts.percentiles {
                Some(pcts) => {
                    let ghost given = lines@;
                    let ordered = sort(lines);
                    let mut rows: Vec<(i64, u32)> = Vec::new();
                    let mut i: usize = 0;
                    while i < pcts.len()
                        invariant
                            i <= pcts@.len(),
                            ordered@ == sorted(given),
                            ordered@.len() > 0,
                            ascending_values(ordered@),
                            forall|j: int| 0 <= j < pcts@.len() ==> valid_percentile(#[trigger] pcts@[j]),
                            rows@ == percentile_rows(given, pcts@.take(i as int)),
                        decreases pcts@.len() - i,
                    {
                        let value = match percentile_of_sorted(&ordered, pcts[i]) {
                            Some(v) => v,
                            None => 0,
                        };
                        rows.push((pcts[i], value));
                        i += 1;
                        assert(rows@ =~= percentile_rows(given, pcts@.take(i as int)));
                    }
                    proof {
                        assert(pcts@.take(i as int) =~= pcts@);
                    }
                    Some(rows)
                },
                None => None,
            }
        };
        Summary {
            min_files,
            max_files,
            avg_files,
            median_files,
            min_lines,
            max_lines,
            avg_lines,
            median_lines,
            line_percentiles,
        }
    }
}

/// Whether `summary` summarizes the sizes: smallest, largest, mean and
/// median of both counts, and the percentiles asked for of the line counts,
/// which are absent without commits.
pub open spec fn summarizes(percentiles: Option<Vec<i64>>, sizes: SizesView, summary: Summary) -> bool {
    &&& summary.min_files == min_of(sizes.files)
    &&& summary.max_files == max_of(sizes.files)
    &&& summary.avg_files == mean_of(sizes.files)
    &&& summary.median_files == median_of(sizes.files)
    &&& summary.min_lines == min_of(sizes.lines)
    &&& summary.max_lines == max_of(sizes.lines)
    &&& summary.avg_lines == mean_of(sizes.lines)
    &&& summary.median_lines == median_of(sizes.lines)
    &&& sizes.lines.len() == 0 || percentiles is None ==> summary.line_percentiles is None
    &&& sizes.lines.len() > 0 && percentiles is Some ==> summary.line_percentiles is Some
        && summary.line_percentiles->0@ == percentile_rows(sizes.lines, percentiles->0@)
}

impl AnalyzerTrait for Analyzer {
    type State = Sizes;

    type Commit = Measured;

    type Model = SizesView;

    type Output = Summary;

    open spec fn model(state: Sizes) -> SizesView {
        state@
    }

    open spec fn sound(&self, state: Sizes) -> bool {
        percentiles_valid(self.opts.percentiles)
    }

    open spec fn name(commit: Measured) -> Seq<char> {
        commit.commit.id@
    }

    open spec fn step(&self, model: SizesView, commit: Measured) -> Option<(SizesView, bool)> {
        Some(
            (
                SizesView {
                    lines: model.lines.push(counter(commit.stats.lines_added + commit.stats.lines_removed)),
                    files: model.files.push(counter(commit.stats.files_changed as int)),
                },
                false,
            ),
        )
    }

    open spec fn reports(&self, model: SizesView, output: Summary) -> bool {
        summarizes(self.opts.percentiles, model, output)
    }

    fn id(commit: &Measured) -> (id: &CommitId) {
        &commit.commit.id
    }

    fn update(&self, state: &mut Sizes, commit: &Measured) -> (next: Result<Control, Error>) {
        Analyzer::process_commit(commit.stats, &mut state.lines, &mut state.files);
        Ok(Control::Continue)
    }

    fn finish(&self, state: Sizes) -> (output: Summary) {
        self.build_summary(state.lines, state.files)
    }
}

impl IntoAnalyzer for Options {
    type Analyzer = Analyzer;

    open spec fn makes(self, globals: Globals, analyzer: Analyzer) -> bool {
        analyzer.opts == self && analyzer.globals == globals
    }

    fn into_analyzer(self, globals: Globals) -> (analyzer: Analyzer) {
        Analyzer::new(self, globals)
    }
}

impl Analyzer {
    /// Checks the options and makes the state of a walk: no commit seen yet.
    pub fn start(&self) -> (sizes: Result<Sizes, Error>)
        ensures
            percentiles_valid(self.opts.percentiles) ==> (sizes matches Ok(s) && s@.lines.len() == 0
                && s@.files.len() == 0),
            !percentiles_valid(self.opts.percentiles) ==> sizes == Err::<Sizes, Error>(
                Error::invalid(Setting::Percentile),
            ),
    {
        match self.opts.validate() {
            Ok(()) => Ok(Sizes { lines: Vec::new(), files: Vec::new() }),
            Err(e) => Err(e),
        }
    }
}

} // verus!
