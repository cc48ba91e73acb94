//! Commits per day and per ISO week, and the active days of each author.

use vstd::prelude::*;
use crate::calendar::{
    day_text, iso_week_of, local_day, local_time, readable, show_day, show_week, week_of, week_text, Week, FIRST_DAY,
    LAST_DAY,
};
use crate::config::{Globals, RepoOptions};
use crate::days::{noted, AuthorDays};
use crate::ints::{int_get, int_keys, int_put, lemma_int_put_sorted, member, rank, IntMap};
use crate::lines::as_counter;
use crate::model::{CommitId, CommitMeta, Control, Error};
use crate::sums::{capped_add, capped_sum};
use crate::text::{author_key, author_matches, filter_text, identity, passes};
use crate::analysis::{outcome, run, AnalyzerTrait, IntoAnalyzer};

verus! {

/// The commits of one ISO week.
#[derive(Clone, Copy, Debug, PartialEq, Eq, Structural)]
pub struct WeekCount {
    /// The week.
    pub week: Week,
    /// The day of the first commit counted in the week.
    pub day: i64,
    /// The number of commits.
    pub commits: u32,
}

/// The totals of a run.
pub struct Totals {
    /// Commits per day, days ascending.
    pub commits_per_day: IntMap<u32>,
    /// Commits per ISO week, weeks ascending.
    pub commits_per_week: IntMap<WeekCount>,
    /// The days on which each author committed.
    pub active_days_per_author: AuthorDays,
}

/// The totals as values.
pub struct TotalsView {
    pub days: Seq<(i64, u32)>,
    pub weeks: Seq<(i64, WeekCount)>,
    pub authors: Seq<(Seq<char>, Seq<i64>)>,
}

impl View for Totals {
    type V = TotalsView;

    open spec fn view(&self) -> TotalsView {
        TotalsView {
            days: self.commits_per_day@,
            weeks: self.commits_per_week@,
            authors: self.active_days_per_author@,
        }
    }
}

/// The totals as labelled rows: each day and each week under the name that
/// the calendar gives it, each author with the number of active days.
pub struct Report {
    pub commits_per_day: Vec<(String, u32)>,
    pub commits_per_week: Vec<(String, u32)>,
    pub active_days_per_author: Vec<(String, u32)>,
}

/// What a commit-frequency analysis is asked to do.
#[derive(Clone, Debug)]
pub struct Options {
    pub repo: RepoOptions,
    /// Only count commits whose author matches this pattern.
    pub author: Option<String>,
}

/// A commit-frequency analysis.
#[derive(Clone, Debug)]
pub struct Analyzer {
    pub opts: Options,
    pub globals: Globals,
}

/// The key under which a week is kept: weeks of a later year come later,
/// and within a year the weeks in their order.
pub open spec fn week_key(week: (int, int)) -> int {
    week.0 * 100 + week.1
}

/// The rows with one more commit on `day`.
pub open spec fn day_counted(rows: Seq<(i64, u32)>, day: i64) -> Seq<(i64, u32)> {
    int_put(
        rows,
        day,
        match int_get(rows, day) {
            Some(n) => capped_sum(n, 1),
            None => 1,
        },
    )
}

/// The rows with one more commit in the week of `day`.
pub open spec fn week_counted(rows: Seq<(i64, WeekCount)>, day: i64) -> Seq<(i64, WeekCount)> {
    let week = iso_week_of(day as int);
    let key = week_key(week) as i64;
    int_put(
        rows,
        key,
        match int_get(rows, key) {
            Some(c) => WeekCount { week: c.week, day: c.day, commits: capped_sum(c.commits, 1) },
            None => WeekCount { week: Week { year: week.0 as i32, number: week.1 as u32 }, day, commits: 1 },
        },
    )
}

impl Totals {
    /// Rows ascending, and every day one that the calendar can name.
    pub open spec fn wf(&self) -> bool {
        &&& self.commits_per_day.wf()
        &&& self.commits_per_week.wf()
        &&& self.active_days_per_author.wf()
        &&& forall|i: int|
            0 <= i < self.commits_per_day@.len() ==> FIRST_DAY <= (#[trigger] self.commits_per_day@[i]).0
                <= LAST_DAY
        &&& forall|i: int|
            0 <= i < self.commits_per_week@.len() ==> FIRST_DAY <= (
            #[trigger] self.commits_per_week@[i]).1.day <= LAST_DAY
    }

    /// The totals of a history without commits.
    pub fn new() -> (totals: Totals)
        ensures
            totals.wf(),
            totals.commits_per_day@.len() == 0,
            totals.commits_per_week@.len() == 0,
            totals.active_days_per_author@.len() == 0,
    {
        Totals {
            commits_per_day: IntMap::new(),
            commits_per_week: IntMap::new(),
            active_days_per_author: AuthorDays::new(),
        }
    }

    /// Counts a commit on `day`.
    fn count_day(&mut self, day: i64)
        requires
            old(self).wf(),
            FIRST_DAY <= day <= LAST_DAY,
        ensures
            final(self).wf(),
            final(self).commits_per_day@ == day_counted(old(self).commits_per_day@, day),
            final(self).commits_per_week == old(self).commits_per_week,
            final(self).active_days_per_author == old(self).active_days_per_author,
    {
        let ghost before = self.commits_per_day@;
        let next = match self.commits_per_day.get(day) {
            Some(n) => capped_add(*n, 1),
            None => 1,
        };
        self.commits_per_day.put(day, next);
        proof {
            lemma_int_put_sorted(before, day, next);
            let p = rank(int_keys(before), day);
            let after = self.commits_per_day@;
            assert forall|i: int| 0 <= i < after.len() implies FIRST_DAY <= (#[trigger] after[i]).0
                <= LAST_DAY by {
                if member(int_keys(before), day) {
                    if i != p {
                        assert(after[i] == before[i]);
                    }
                } else {
                    if i < p {
                        assert(after[i] == before[i]);
                    } else if i > p {
                        assert(after[i] == before[i - 1]);
                    }
                }
            }
        }
    }

    /// Counts a commit on `day` in the week of that day.
    fn count_week(&mut self, day: i64)
        requires
            old(self).wf(),
            FIRST_DAY <= day <= LAST_DAY,
        ensures
            final(self).wf(),
            final(self).commits_per_week@ == week_counted(old(self).commits_per_week@, day),
            final(self).commits_per_day == old(self).commits_per_day,
            final(self).active_days_per_author == old(self).active_days_per_author,
    {
        let ghost before = self.commits_per_week@;
        let week = match week_of(day) {
            Some(w) => w,
            None => {
                return ;
            },
        };
        let key: i64 = (week.year as i64) * 100 + (week.number as i64);
        let next = match self.commits_per_week.get(key) {
            Some(c) => WeekCount { week: c.week, day: c.day, commits: capped_add(c.commits, 1) },
            None => WeekCount { week, day, commits: 1 },
        };
        self.commits_per_week.put(key, next);
        proof {
            lemma_int_put_sorted(before, key, next);
            let p = rank(int_keys(before), key);
            let after = self.commits_per_week@;
            assert forall|i: int| 0 <= i < after.len() implies FIRST_DAY <= (#[trigger] after[i]).1.day
                <= LAST_DAY by {
                if member(int_keys(before), key) {
                    if i != p {
                        assert(after[i] == before[i]);
                    } else {
                        assert(before[p].1.day == after[p].1.day);
                    }
                } else {
                    if i < p {
                        assert(after[i] == before[i]);
                    } else if i > p {
                        assert(after[i] == before[i - 1]);
                    }
                }
            }
        }
    }

    /// Labels the rows: days and weeks as the calendar writes them, authors
    /// with the number of their active days.
    pub fn report(&self) -> (report: Report)
        requires
            self.wf(),
        ensures
            labels(self@, report),
    {
        let mut days: Vec<(String, u32)> = Vec::new();
        let mut i: usize = 0;
        while i < self.commits_per_day.len()
            invariant
                self.wf(),
                i <= self.commits_per_day@.len(),
                days@.len() == i,
                forall|j: int|
                    0 <= j < i ==> {
                        &&& (#[trigger] days@[j]).0@ == day_text(self.commits_per_day@[j].0 as int)
                        &&& days@[j].1 == self.commits_per_day@[j].1
                    },
            decreases self.commits_per_day@.len() - i,
        {
            let day = self.commits_per_day.key_at(i);
            assert(FIRST_DAY <= self.commits_per_day@[i as int].0 <= LAST_DAY);
            let label = match show_day(day) {
                Some(s) => s,
                None => String::new(),
            };
            days.push((label, *self.commits_per_day.value_at(i)));
            i += 1;
        }
        let mut weeks: Vec<(String, u32)> = Vec::new();
        let mut i: usize = 0;
        while i < self.commits_per_week.len()
            invariant
                self.wf(),
                i <= self.commits_per_week@.len(),
                weeks@.len() == i,
                forall|j: int|
                    0 <= j < i ==> {
                        &&& (#[trigger] weeks@[j]).0@ == week_text(self.commits_per_week@[j].1.day as int)
                        &&& weeks@[j].1 == self.commits_per_week@[j].1.commits
                    },
            decreases self.commits_per_week@.len() - i,
        {
            let row = self.commits_per_week.value_at(i);
            assert(FIRST_DAY <= self.commits_per_week@[i as int].1.day <= LAST_DAY);
            let label = match show_week(row.day) {
                Some(s) => s,
                None => String::new(),
            };
            weeks.push((label, row.commits));
            i += 1;
        }
        let mut authors: Vec<(String, u32)> = Vec::new();
        let mut i: usize = 0;
        while i < self.active_days_per_author.len()
            invariant
                self.wf(),
                i <= self.active_days_per_author@.len(),
                authors@.len() == i,
                forall|j: int|
                    0 <= j < i ==> {
                        &&& (#[trigger] authors@[j]).0@ == self.active_days_per_author@[j].0
                        &&& authors@[j].1 == as_counter(self.active_days_per_author@[j].1.len())
                    },
            decreases self.active_days_per_author@.len() - i,
        {
            let n = self.active_days_per_author.days_at(i).len();
            let count = if n > u32::MAX as usize {
                u32::MAX
            } else {
                n as u32
            };
            authors.push((self.active_days_per_author.author_at(i).clone(), count));
            i += 1;
        }
        Report { commits_per_day: days, commits_per_week: weeks, active_days_per_author: authors }
    }
}

/// Counts a commit under its author-local day and week and notes the day
/// for its author. A commit whose author does not pass the filter is not
/// counted and not read further; a commit whose time cannot be read ends
/// the run.
pub fn process_commit(commit: &CommitMeta, author_filter: &Option<String>, totals: &mut Totals) -> (done:
    Result<(), Error>)
    requires
        old(totals).wf(),
    ensures
        final(totals).wf(),
        !passes(commit.author_name@, commit.author_email@, filter_text(author_filter)) ==> done is Ok
            && *final(totals) == *old(totals),
        passes(commit.author_name@, commit.author_email@, filter_text(author_filter)) && !readable(
            commit.author_time,
        ) ==> done == Err::<(), Error>(Error::corrupt()) && *final(totals) == *old(totals),
        passes(commit.author_name@, commit.author_email@, filter_text(author_filter)) && readable(
            commit.author_time,
        ) ==> {
            &&& done is Ok
            &&& final(totals).commits_per_day@ == day_counted(
                old(totals).commits_per_day@,
                local_day(commit.author_time) as i64,
            )
            &&& final(totals).commits_per_week@ == week_counted(
                old(totals).commits_per_week@,
                local_day(commit.author_time) as i64,
            )
            &&& final(totals).active_days_per_author@ == noted(
                old(totals).active_days_per_author@,
                identity(commit.author_name@, commit.author_email@),
                local_day(commit.author_time) as i64,
            )
        },
{
    if !author_matches(commit.author_name.as_str(), commit.author_email.as_str(), author_filter) {
        return Ok(());
    }
    let local = match local_time(commit.author_time) {
        Some(l) => l,
        None => {
            return Err(Error::corrupt_history());
        },
    };
    let key = author_key(commit.author_name.as_str(), commit.author_email.as_str());
    totals.count_day(local.day);
    totals.count_week(local.day);
    totals.active_days_per_author.note(key, local.day);
    Ok(())
}

/// The totals after one more commit: unchanged for a commit that the
/// filter leaves out, none for a commit whose time cannot be read.
pub open spec fn after_commit(totals: TotalsView, commit: CommitMeta, filter: Option<Seq<char>>) -> Option<
    TotalsView,
> {
    if !passes(commit.author_name@, commit.author_email@, filter) {
        Some(totals)
    } else if !readable(commit.author_time) {
        None
    } else {
        let day = local_day(commit.author_time) as i64;
        Some(
            TotalsView {
                days: day_counted(totals.days, day),
                weeks: week_counted(totals.weeks, day),
                authors: noted(totals.authors, identity(commit.author_name@, commit.author_email@), day),
            },
        )
    }
}

/// The totals before any commit.
pub open spec fn blank() -> TotalsView {
    TotalsView { days: Seq::empty(), weeks: Seq::empty(), authors: Seq::empty() }
}

impl Analyzer {
    /// An analysis with the given options.
    pub fn new(opts: Options, globals: Globals) -> (analyzer: Analyzer)
        ensures
            analyzer.opts == opts,
            analyzer.globals == globals,
    {
        Analyzer { opts, globals }
    }
}

/// Whether `report` labels the rows of the totals: days and weeks as the
/// calendar writes them, authors with the number of their active days.
pub open spec fn labels(totals: TotalsView, report: Report) -> bool {
    &&& report.commits_per_day@.len() == totals.days.len()
    &&& forall|i: int|
        0 <= i < totals.days.len() ==> {
            &&& (#[trigger] report.commits_per_day@[i]).0@ == day_text(totals.days[i].0 as int)
            &&& report.commits_per_day@[i].1 == totals.days[i].1
        }
    &&& report.commits_per_week@.len() == totals.weeks.len()
    &&& forall|i: int|
        0 <= i < totals.weeks.len() ==> {
            &&& (#[trigger] report.commits_per_week@[i]).0@ == week_text(totals.weeks[i].1.day as int)
            &&& report.commits_per_week@[i].1 == totals.weeks[i].1.commits
        }
    &&& report.active_days_per_author@.len() == totals.authors.len()
    &&& forall|i: int|
        0 <= i < totals.authors.len() ==> {
            &&& (#[trigger] report.active_days_per_author@[i]).0@ == totals.authors[i].0
            &&& report.active_days_per_author@[i].1 == as_counter(totals.authors[i].1.len())
        }
}

impl AnalyzerTrait for Analyzer {
    type State = Totals;

    type Commit = CommitMeta;

    type Model = TotalsView;

    type Output = Report;

    open spec fn model(state: Totals) -> TotalsView {
        state@
    }

    open spec fn sound(&self, state: Totals) -> bool {
        state.wf()
    }

    open spec fn name(commit: CommitMeta) -> Seq<char> {
        commit.id@
    }

    open spec fn step(&self, model: TotalsView, commit: CommitMeta) -> Option<(TotalsView, bool)> {
        match after_commit(model, commit, filter_text(&self.opts.author)) {
            Some(totals) => Some((totals, false)),
            None => None,
        }
    }

    open spec fn reports(&self, model: TotalsView, output: Report) -> bool {
        labels(model, output)
    }

    fn id(commit: &CommitMeta) -> (id: &CommitId) {
        &commit.id
    }

    fn update(&self, state: &mut Totals, commit: &CommitMeta) -> (next: Result<Control, Error>) {
        match process_commit(commit, &self.opts.author, state) {
            Ok(()) => Ok(Control::Continue),
            Err(e) => Err(e),
        }
    }

    fn finish(&self, state: Totals) -> (output: Report) {
        state.report()
    }
}

impl IntoAnalyzer for Options {
    type Analyzer = Analyzer;

    open spec fn makes(self, globals: Globals, analyzer: Analyzer) -> bool {
        analyzer.opts == self && analyzer.globals == globals
    }

    fn into_analyzer(self, globals: Globals) -> (analyzer: Analyzer) {
        Analyzer::new(self, globals)
    }
}

impl Analyzer {
    /// Counts the commits of a history, newest first, down to and including
    /// `since`. A commit whose time cannot be read ends the run without
    /// totals.
    pub fn analyze(&self, history: &Vec<CommitMeta>, since: Option<CommitId>) -> (totals: Result<Totals, Error>)
        ensures
            match outcome(
                self,
                blank(),
                history@,
                match since {
                    Some(id) => Some(id@),
                    None => None,
                },
            ) {
                Some(view) => totals matches Ok(t) && t.wf() && t@ == view,
                None => totals matches Err(e) && e == Error::corrupt(),
            },
    {
        let start = Totals::new();
        assert(start@.days =~= blank().days && start@.weeks =~= blank().weeks && start@.authors
            =~= blank().authors);
        run(self, start, history, since)
    }
}

} // verus!
