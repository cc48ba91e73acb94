//! Commits per time of day, in equal-width bins of the author's local hour.

use vstd::prelude::*;
use crate::calendar::{local_hour, local_time, readable};
use crate::config::{Globals, RepoOptions};
use crate::model::{CommitId, CommitMeta, Control, Error, Setting};
use crate::sums::{capped_add, capped_sum, total, lemma_total_update, lemma_total_bounds_each, lemma_total_zeros};
use crate::text::{author_matches, filter_text, passes};
use crate::analysis::{outcome, run, AnalyzerTrait, IntoAnalyzer};

verus! {

/// A histogram of commit counts, one count per bin.
pub struct Histogram {
    pub counts: Vec<u32>,
}

/// What a time-of-day analysis is asked to do.
#[derive(Clone, Debug)]
pub struct Options {
    pub repo: RepoOptions,
    /// The number of bins that the 24 hours are split into.
    pub bins: u8,
    /// Only count commits whose author matches this pattern.
    pub author: Option<String>,
}

/// A time-of-day analysis.
#[derive(Clone, Debug)]
pub struct Analyzer {
    pub opts: Options,
    pub globals: Globals,
}

/// The bin of an hour, for a day split into `bins` bins.
pub open spec fn bucket(hour: int, bins: int) -> int {
    hour * bins / 24
}

/// The counts with one more commit in bin `b`.
pub open spec fn bumped(counts: Seq<u32>, b: int) -> Seq<u32> {
    counts.update(b, capped_sum(counts[b], 1))
}

/// The first hour of bin `i`.
pub open spec fn first_hour(i: int, bins: int) -> int {
    (i * 24 + bins - 1) / bins
}

/// The last hour of bin `i`: the hour before the next bin's first; 23 for
/// the last bin.
pub open spec fn last_hour(i: int, bins: int) -> int {
    if i == bins - 1 {
        23
    } else {
        first_hour(i + 1, bins) - 1
    }
}

/// An hour always falls in one of the bins.
pub proof fn lemma_bucket_in_range(hour: int, bins: int)
    requires
        0 <= hour < 24,
        1 <= bins <= 24,
    ensures
        0 <= bucket(hour, bins) < bins,
{
    assert(0 <= hour * bins < 24 * bins) by (nonlinear_arith)
        requires
            0 <= hour < 24,
            1 <= bins,
    ;
}

/// The displayed bounds of a bin hold exactly the hours that are counted in
/// it.
pub proof fn lemma_bounds_match_bucket(hour: int, bins: int, i: int)
    requires
        0 <= hour < 24,
        1 <= bins <= 24,
        0 <= i < bins,
    ensures
        bucket(hour, bins) == i <==> first_hour(i, bins) <= hour <= last_hour(i, bins),
{
    lemma_first_hour(hour, bins, i);
    lemma_first_hour(hour, bins, i + 1);
    lemma_bucket_in_range(hour, bins);
    assert((bins * 24 + bins - 1) / bins == 24) by (nonlinear_arith)
        requires
            bins >= 1,
    ;
    assert(bins * 24 == (i + 1) * 24 <==> i == bins - 1) by (nonlinear_arith);
    if i == bins - 1 {
        assert(first_hour(i + 1, bins) == 24);
    }
    assert(bucket(hour, bins) == i <==> i * 24 <= hour * bins < (i + 1) * 24) by {
        let x = hour * bins;
        assert(x / 24 == i <==> i * 24 <= x < (i + 1) * 24);
    }
}

proof fn lemma_first_hour(hour: int, bins: int, i: int)
    requires
        0 <= hour,
        1 <= bins,
        0 <= i,
    ensures
        first_hour(i, bins) <= hour <==> i * 24 <= hour * bins,
{
    let x = i * 24;
    let q = (x + bins - 1) / bins;
    assert(q <= hour <==> x <= hour * bins) by (nonlinear_arith)
        requires
            bins >= 1,
            x >= 0,
            hour >= 0,
            q == (x + bins - 1) / bins,
    ;
}

impl Histogram {
    /// Between one and twenty-four bins.
    pub open spec fn wf(&self) -> bool {
        1 <= self.counts@.len() <= 24
    }

    /// The number of commits per bin.
    pub fn counts(&self) -> (counts: &Vec<u32>)
        ensures
            *counts == self.counts,
    {
        &self.counts
    }
}

impl Analyzer {
    /// An analysis with the given options.
    pub fn new(opts: Options, globals: Globals) -> (analyzer: Analyzer)
        ensures
            analyzer.opts == opts,
            analyzer.globals == globals,
    {
        Analyzer { opts, globals }
    }

    /// Checks the number of bins and makes the empty histogram. The number
    /// must be between 1 and 24.
    pub fn start(&self) -> (hist: Result<Histogram, Error>)
        ensures
            1 <= self.opts.bins <= 24 ==> hist is Ok,
            !(1 <= self.opts.bins <= 24) ==> hist == Err::<Histogram, Error>(
                Error::invalid(Setting::Bins),
            ),
            hist matches Ok(h) ==> h.wf() && h.counts@ == Seq::new(self.opts.bins as nat, |i: int| 0u32),
    {
        if self.opts.bins == 0 || self.opts.bins > 24 {
            return Err(Error::invalid_configuration(Setting::Bins));
        }
        let mut counts: Vec<u32> = Vec::new();
        let mut i: u8 = 0;
        while i < self.opts.bins
            invariant
                i <= self.opts.bins,
                counts@ == Seq::new(i as nat, |j: int| 0u32),
            decreases self.opts.bins - i,
        {
            counts.push(0);
            i += 1;
            assert(counts@ =~= Seq::new(i as nat, |j: int| 0u32));
        }
        Ok(Histogram { counts })
    }

    /// The hours that bin `i` of `bins` shows: its first and its last hour.
    pub fn bin_bounds(i: u32, bins: u32) -> (bounds: (u32, u32))
        requires
            1 <= bins <= 24,
            i < bins,
        ensures
            bounds.0 == first_hour(i as int, bins as int),
            bounds.1 == last_hour(i as int, bins as int),
            bounds.0 <= bounds.1 <= 23,
    {
        proof {
            lemma_bounds_order(i as int, bins as int);
        }
        let start = (i * 24 + bins - 1) / bins;
        let end = if i == bins - 1 {
            23
        } else {
            ((i + 1) * 24 + bins - 1) / bins - 1
        };
        (start, end)
    }
}

proof fn lemma_bounds_order(i: int, bins: int)
    requires
        1 <= bins <= 24,
        0 <= i < bins,
    ensures
        0 <= first_hour(i, bins) <= last_hour(i, bins) <= 23,
        first_hour(i + 1, bins) >= 1,
{
    lemma_first_hour(23, bins, i);
    lemma_first_hour(23, bins, i + 1);
    assert(i * 24 <= 23 * bins) by (nonlinear_arith)
        requires
            0 <= i < bins,
            bins <= 24,
    ;
    assert((i * 24 + bins - 1) / bins >= 0) by (nonlinear_arith)
        requires
            0 <= i,
            1 <= bins,
    ;
    let a = first_hour(i, bins);
    // the bin holds the hour `a`
    lemma_first_hour(a, bins, i);
    lemma_first_hour(a, bins, i + 1);
    if i < bins - 1 {
        assert(a * bins < (i + 1) * 24) by (nonlinear_arith)
            requires
                a == (i * 24 + bins - 1) / bins,
                1 <= bins <= 24,
                0 <= i,
        ;
    }
    lemma_first_hour(0, bins, i + 1);
}

/// Counts a commit in the bin of its author's local hour. A commit whose
/// author does not pass the filter is not counted and not read further; a
/// commit whose time cannot be read ends the run.
pub fn process_commit(commit: &CommitMeta, author_filter: &Option<String>, hist: &mut Histogram) -> (done:
    Result<(), Error>)
    requires
        old(hist).wf(),
    ensures
        final(hist).wf(),
        !passes(commit.author_name@, commit.author_email@, filter_text(author_filter)) ==> done is Ok
            && final(hist).counts@ == old(hist).counts@,
        passes(commit.author_name@, commit.author_email@, filter_text(author_filter)) && !readable(
            commit.author_time,
        ) ==> done == Err::<(), Error>(Error::corrupt()) && final(hist).counts@ == old(
            hist,
        ).counts@,
        passes(commit.author_name@, commit.author_email@, filter_text(author_filter)) && readable(
            commit.author_time,
        ) ==> done is Ok && final(hist).counts@ == bumped(
            old(hist).counts@,
            bucket(local_hour(commit.author_time), old(hist).counts@.len() as int),
        ),
{
    if !author_matches(commit.author_name.as_str(), commit.author_email.as_str(), author_filter) {
        return Ok(());
    }
    let local = match local_time(commit.author_time) {
        Some(l) => l,
        None => {
            return Err(Error::corrupt_history());
        },
    };
    let bins = hist.counts.len();
    proof {
        lemma_bucket_in_range(local.hour as int, bins as int);
    }
    let bin = (local.hour as usize) * bins / 24;
    let next = capped_add(hist.counts[bin], 1);
    hist.counts[bin] = next;
    Ok(())
}

/// The counts as numbers.
pub open spec fn column(counts: Seq<u32>) -> Seq<nat> {
    Seq::new(counts.len(), |i: int| counts[i] as nat)
}

/// The counts after one more commit: unchanged for a commit that the filter
/// leaves out, none for a commit whose time cannot be read.
pub open spec fn after_commit(counts: Seq<u32>, commit: CommitMeta, filter: Option<Seq<char>>) -> Option<
    Seq<u32>,
> {
    if !passes(commit.author_name@, commit.author_email@, filter) {
        Some(counts)
    } else if !readable(commit.author_time) {
        None
    } else {
        Some(bumped(counts, bucket(local_hour(commit.author_time), counts.len() as int)))
    }
}

impl AnalyzerTrait for Analyzer {
    type State = Histogram;

    type Commit = CommitMeta;

    type Model = Seq<u32>;

    type Output = Histogram;

    open spec fn model(state: Histogram) -> Seq<u32> {
        state.counts@
    }

    open spec fn sound(&self, state: Histogram) -> bool {
        state.wf()
    }

    open spec fn name(commit: CommitMeta) -> Seq<char> {
        commit.id@
    }

    open spec fn step(&self, model: Seq<u32>, commit: CommitMeta) -> Option<(Seq<u32>, bool)> {
        match after_commit(model, commit, filter_text(&self.opts.author)) {
            Some(counts) => Some((counts, false)),
            None => None,
        }
    }

    open spec fn reports(&self, model: Seq<u32>, output: Histogram) -> bool {
        output.counts@ == model
    }

    fn id(commit: &CommitMeta) -> (id: &CommitId) {
        &commit.id
    }

    fn update(&self, state: &mut Histogram, commit: &CommitMeta) -> (next: Result<Control, Error>) {
        match process_commit(commit, &self.opts.author, state) {
            Ok(()) => Ok(Control::Continue),
            Err(e) => Err(e),
        }
    }

    fn finish(&self, state: Histogram) -> (output: Histogram) {
        state
    }
}

impl IntoAnalyzer for Options {
    type Analyzer = Analyzer;

    open spec fn makes(self, globals: Globals, analyzer: Analyzer) -> bool {
        analyzer.opts == self && analyzer.globals == globals
    }

    fn into_analyzer(self, globals: Globals) -> (analyzer: Analyzer) {
        Analyzer::new(self, globals)
    }
}

/// The number of commits among those of a walk that pass the filter: of a
/// history, newest first, down to and including `since`.
pub open spec fn passing(history: Seq<CommitMeta>, since: Option<Seq<char>>, filter: Option<Seq<char>>) -> nat
    decreases history.len(),
{
    if history.len() == 0 {
        0
    } else {
        let here = if passes(history[0].author_name@, history[0].author_email@, filter) {
            1nat
        } else {
            0nat
        };
        if since == Some(history[0].id@) {
            here
        } else {
            here + passing(history.drop_first(), since, filter)
        }
    }
}

/// The bin counts always sum to the number of commits counted, whatever
/// the number of bins: a walk adds to the sum of the counts the number of
/// its commits that pass the filter. This holds as long as a counter can
/// hold the sum.
pub proof fn lemma_counts_sum_to_commits(
    analyzer: &Analyzer,
    counts: Seq<u32>,
    history: Seq<CommitMeta>,
    since: Option<Seq<char>>,
)
    requires
        1 <= counts.len() <= 24,
        total(column(counts)) + passing(history, since, filter_text(&analyzer.opts.author)) <= u32::MAX,
        outcome(analyzer, counts, history, since) is Some,
    ensures
        outcome(analyzer, counts, history, since)->0.len() == counts.len(),
        total(column(outcome(analyzer, counts, history, since)->0)) == total(column(counts)) + passing(
            history,
            since,
            filter_text(&analyzer.opts.author),
        ),
    decreases history.len(),
{
    if history.len() > 0 {
        let filter = filter_text(&analyzer.opts.author);
        let commit = history[0];
        let next = after_commit(counts, commit, filter)->0;
        assert(analyzer.step(counts, commit) == Some((next, false)));
        if passes(commit.author_name@, commit.author_email@, filter) {
            let hour = local_hour(commit.author_time);
            let bins = counts.len() as int;
            assert(0 <= hour < 24);
            let b = bucket(hour, bins);
            lemma_bucket_in_range(hour, bins);
            lemma_total_bounds_each(column(counts), b);
            assert(column(next) =~= column(counts).update(b, (counts[b] + 1) as nat));
            lemma_total_update(column(counts), b, (counts[b] + 1) as nat);
        }
        if since != Some(commit.id@) {
            lemma_counts_sum_to_commits(analyzer, next, history.drop_first(), since);
        }
    }
}

impl Analyzer {
    /// Counts the commits of a history, newest first, down to and including
    /// `since`. The number of bins is checked first; a commit whose time
    /// cannot be read ends the run without a histogram.
    pub fn analyze(&self, history: &Vec<CommitMeta>, since: Option<CommitId>) -> (hist: Result<Histogram, Error>)
        ensures
            !(1 <= self.opts.bins <= 24) ==> hist == Err::<Histogram, Error>(Error::invalid(Setting::Bins)),
            1 <= self.opts.bins <= 24 ==> (match outcome(
                self,
                Seq::new(self.opts.bins as nat, |i: int| 0u32),
                history@,
                match since {
                    Some(id) => Some(id@),
                    None => None,
                },
            ) {
                Some(counts) => hist matches Ok(h) && h.wf() && h.counts@ == counts,
                None => hist matches Err(e) && e == Error::corrupt(),
            }),
    {
        let start = match self.start() {
            Ok(h) => h,
            Err(e) => {
                return Err(e);
            },
        };
        run(self, start, history, since)
    }
}

} // verus!
