//! The longest run of consecutive days with a commit, per author.

use vstd::prelude::*;
use crate::calendar::{local_day, local_time, readable};
use crate::config::{Globals, RepoOptions};
use crate::days::{noted, AuthorDays};
use crate::ints::DaySet;
use crate::lines::as_counter;
use crate::model::{CommitId, CommitMeta, Control, Error};
use crate::table::TextMap;
use crate::text::{author_key, author_matches, filter_text, identity, passes};
use crate::analysis::{outcome, run, AnalyzerTrait, IntoAnalyzer};

verus! {

/// The longest streak of each author, by identity in ascending order.
pub struct Streaks(pub TextMap<u32>);

impl Streaks {
    /// Wraps a map from author to streak.
    pub fn from_map(map: TextMap<u32>) -> (streaks: Streaks)
        ensures
            streaks.0 == map,
    {
        Streaks(map)
    }

    /// The map from author to streak.
    pub fn into_inner(self) -> (map: TextMap<u32>)
        ensures
            map == self.0,
    {
        self.0
    }

    /// The map from author to streak.
    pub fn as_map(&self) -> (map: &TextMap<u32>)
        ensures
            *map == self.0,
    {
        &self.0
    }
}

/// What a streak analysis is asked to do.
#[derive(Clone, Debug)]
pub struct Options {
    pub repo: RepoOptions,
    /// Only count commits whose author matches this pattern.
    pub author: Option<String>,
}

/// A streak analysis.
#[derive(Clone, Debug)]
pub struct Analyzer {
    pub opts: Options,
    pub globals: Globals,
}

/// The days from position `start` on, `len` of them, are consecutive
/// calendar days.
pub open spec fn is_run(days: Seq<i64>, start: int, len: int) -> bool {
    &&& 0 <= start
    &&& 0 <= len
    &&& start + len <= days.len()
    &&& forall|k: int| 0 <= k < len ==> #[trigger] days[start + k] == days[start] + k
}

/// The length of the run of consecutive days that ends at position `i`.
pub open spec fn run_ending_at(days: Seq<i64>, i: int) -> nat
    decreases i,
{
    if i <= 0 {
        1
    } else if days[i] == days[i - 1] + 1 {
        run_ending_at(days, i - 1) + 1
    } else {
        1
    }
}

/// The length of the longest run among the first `n` days.
pub open spec fn longest_among(days: Seq<i64>, n: int) -> nat
    decreases n,
{
    if n <= 0 {
        0
    } else {
        let before = longest_among(days, n - 1);
        let here = run_ending_at(days, n - 1);
        if here > before {
            here
        } else {
            before
        }
    }
}

/// The length of the longest run of consecutive days; 0 without any day.
pub open spec fn longest_run(days: Seq<i64>) -> nat {
    longest_among(days, days.len() as int)
}

proof fn lemma_run_ending_at(days: Seq<i64>, i: int)
    requires
        0 <= i < days.len(),
    ensures
        1 <= run_ending_at(days, i) <= i + 1,
        is_run(days, i + 1 - run_ending_at(days, i), run_ending_at(days, i) as int),
        forall|start: int, len: int|
            #[trigger] is_run(days, start, len) && start + len == i + 1 ==> len <= run_ending_at(
                days,
                i,
            ),
    decreases i,
{
    let r = run_ending_at(days, i) as int;
    if i == 0 {
        assert(is_run(days, 0, 1)) by {
            assert forall|k: int| 0 <= k < 1 implies #[trigger] days[0 + k] == days[0] + k by {}
        }
    } else {
        lemma_run_ending_at(days, i - 1);
        let p = run_ending_at(days, i - 1) as int;
        if days[i] == days[i - 1] + 1 {
            let s = i - p;
            assert(is_run(days, s, p));
            assert(is_run(days, s, p + 1)) by {
                assert forall|k: int| 0 <= k < p + 1 implies #[trigger] days[s + k] == days[s] + k by {
                    if k == p {
                        assert(days[s + (p - 1)] == days[s] + (p - 1));
                    } else {
                        assert(days[s + k] == days[s] + k);
                    }
                }
            }
            assert forall|start: int, len: int| #[trigger]
                is_run(days, start, len) && start + len == i + 1 implies len <= r by {
                if len >= 2 {
                    assert(is_run(days, start, len - 1)) by {
                        assert forall|k: int| 0 <= k < len - 1 implies #[trigger] days[start + k]
                            == days[start] + k by {
                            assert(days[start + k] == days[start] + k);
                        }
                    }
                }
            }
        } else {
            assert(is_run(days, i, 1)) by {
                assert forall|k: int| 0 <= k < 1 implies #[trigger] days[i + k] == days[i] + k by {}
            }
            assert forall|start: int, len: int| #[trigger]
                is_run(days, start, len) && start + len == i + 1 implies len <= 1 by {
                if len >= 2 {
                    assert(days[start + (len - 1)] == days[start] + (len - 1));
                    assert(days[start + (len - 2)] == days[start] + (len - 2));
                }
            }
        }
    }
}

proof fn lemma_longest_among(days: Seq<i64>, n: int)
    requires
        0 <= n <= days.len(),
    ensures
        longest_among(days, n) <= n,
        n > 0 ==> exists|start: int|
            start + longest_among(days, n) <= n && #[trigger] is_run(
                days,
                start,
                longest_among(days, n) as int,
            ),
        forall|start: int, len: int|
            #[trigger] is_run(days, start, len) && start + len <= n ==> len <= longest_among(days, n),
    decreases n,
{
    if n > 0 {
        lemma_longest_among(days, n - 1);
        lemma_run_ending_at(days, n - 1);
        let before = longest_among(days, n - 1);
        let here = run_ending_at(days, n - 1);
        if here > before {
            assert(is_run(days, n - here, here as int));
        } else {
            if n - 1 > 0 {
                let start = choose|start: int|
                    start + before <= n - 1 && #[trigger] is_run(days, start, before as int);
                assert(is_run(days, start, before as int));
            } else {
                assert(here == 1);
            }
        }
    }
}

/// The longest run is a run, and no run is longer.
pub proof fn lemma_longest_run_is_longest(days: Seq<i64>)
    ensures
        days.len() == 0 ==> longest_run(days) == 0,
        days.len() > 0 ==> longest_run(days) >= 1,
        days.len() > 0 ==> exists|start: int| #[trigger]
            is_run(days, start, longest_run(days) as int),
        forall|start: int, len: int| #[trigger] is_run(days, start, len) ==> len <= longest_run(days),
{
    lemma_longest_among(days, days.len() as int);
    if days.len() > 0 {
        lemma_run_ending_at(days, 0);
        assert(is_run(days, 0, 1));
    }
}

/// Three days in a row are a streak of three; two days with a day between
/// them are a streak of one, whatever the first day is.
pub proof fn lemma_streaks_of_three_and_two_days(day0: i64)
    requires
        day0 + 2 <= i64::MAX,
    ensures
        longest_run(seq![day0, (day0 + 1) as i64, (day0 + 2) as i64]) == 3,
        longest_run(seq![day0, (day0 + 2) as i64]) == 1,
{
    reveal_with_fuel(run_ending_at, 4);
    reveal_with_fuel(longest_among, 4);
}

/// The length of the longest run of consecutive days in a set of days: a
/// day that follows the day before it extends the run, any other day starts
/// a run of one.
pub fn longest_streak(days: &DaySet) -> (streak: u32)
    requires
        days.wf(),
    ensures
        streak == as_counter(longest_run(days@)),
{
    let mut max: usize = 0;
    let mut current: usize = 0;
    let mut i: usize = 0;
    while i < days.days.len()
        invariant
            i <= days@.len(),
            days@ == days.days@,
            max == longest_among(days@, i as int),
            i > 0 ==> current == run_ending_at(days@, i - 1),
            current <= i,
            max <= i,
        decreases days@.len() - i,
    {
        proof {
            lemma_run_ending_at(days@, i as int);
        }
        if i > 0 && days.days[i - 1] < i64::MAX && days.days[i] == days.days[i - 1] + 1 {
            current = current + 1;
        } else {
            current = 1;
        }
        if current > max {
            max = current;
        }
        i += 1;
    }
    if max > u32::MAX as usize {
        u32::MAX
    } else {
        max as u32
    }
}

/// Notes the author-local day of a commit among its author's days. A commit
/// whose author does not pass the filter is not noted and not read further;
/// a commit whose time cannot be read ends the run.
pub fn process_commit(commit: &CommitMeta, author_filter: &Option<String>, by_author: &mut AuthorDays) -> (done:
    Result<(), Error>)
    requires
        old(by_author).wf(),
    ensures
        final(by_author).wf(),
        !passes(commit.author_name@, commit.author_email@, filter_text(author_filter)) ==> done is Ok
            && final(by_author)@ == old(by_author)@,
        passes(commit.author_name@, commit.author_email@, filter_text(author_filter)) && !readable(
            commit.author_time,
        ) ==> done == Err::<(), Error>(Error::corrupt()) && final(by_author)@ == old(by_author)@,
        passes(commit.author_name@, commit.author_email@, filter_text(author_filter)) && readable(
            commit.author_time,
        ) ==> done is Ok && final(by_author)@ == noted(
            old(by_author)@,
            identity(commit.author_name@, commit.author_email@),
            local_day(commit.author_time) as i64,
        ),
{
    if !author_matches(commit.author_name.as_str(), commit.author_email.as_str(), author_filter) {
        return Ok(());
    }
    let local = match local_time(commit.author_time) {
        Some(l) => l,
        None => {
            return Err(Error::corrupt_history());
        },
    };
    let key = author_key(commit.author_name.as_str(), commit.author_email.as_str());
    by_author.note(key, local.day);
    Ok(())
}

/// The days of each author after one more commit: unchanged for a commit
/// that the filter leaves out, none for a commit whose time cannot be read.
pub open spec fn after_commit(rows: Seq<(Seq<char>, Seq<i64>)>, commit: CommitMeta, filter: Option<Seq<char>>) -> Option<
    Seq<(Seq<char>, Seq<i64>)>,
> {
    if !passes(commit.author_name@, commit.author_email@, filter) {
        Some(rows)
    } else if !readable(commit.author_time) {
        None
    } else {
        Some(
            noted(
                rows,
                identity(commit.author_name@, commit.author_email@),
                local_day(commit.author_time) as i64,
            ),
        )
    }
}

impl Analyzer {
    /// An analysis with the given options.
    pub fn new(opts: Options, globals: Globals) -> (analyzer: Analyzer)
        ensures
            analyzer.opts == opts,
            analyzer.globals == globals,
    {
        Analyzer { opts, globals }
    }

    /// Turns the days of each author into the author's longest streak.
    pub fn longest_streaks(by_author: &AuthorDays) -> (streaks: Streaks)
        requires
            by_author.wf(),
        ensures
            streaks.0.wf(),
            streaks.0@.len() == by_author@.len(),
            forall|i: int|
                0 <= i < by_author@.len() ==> #[trigger] streaks.0@[i] == (
                    by_author@[i].0,
                    as_counter(longest_run(by_author@[i].1)),
                ),
    {
        let mut keys: Vec<String> = Vec::new();
        let mut values: Vec<u32> = Vec::new();
        let mut i: usize = 0;
        let n = by_author.len();
        while i < n
            invariant
                by_author.wf(),
                n == by_author@.len(),
                i <= n,
                keys@.len() == i,
                values@.len() == i,
                forall|j: int| 0 <= j < i ==> (#[trigger] keys@[j])@ == by_author@[j].0,
                forall|j: int|
                    0 <= j < i ==> #[trigger] values@[j] == as_counter(longest_run(by_author@[j].1)),
            decreases n - i,
        {
            keys.push(by_author.author_at(i).clone());
            values.push(longest_streak(by_author.days_at(i)));
            i += 1;
        }
        let map = TextMap { keys, values };
        proof {
            assert(map.key_seq() =~= by_author.by_author.key_seq());
            assert forall|j: int| 0 <= j < by_author@.len() implies #[trigger] map@[j] == (
                by_author@[j].0,
                as_counter(longest_run(by_author@[j].1)),
            ) by {
                assert(map@[j] == (keys@[j]@, values@[j]));
            }
        }
        Streaks(map)
    }
}

/// Whether `streaks` holds, for each author, the longest run among the
/// author's days.
pub open spec fn streaks_of(rows: Seq<(Seq<char>, Seq<i64>)>, streaks: Streaks) -> bool {
    &&& streaks.0.wf()
    &&& streaks.0@.len() == rows.len()
    &&& forall|i: int|
        0 <= i < rows.len() ==> #[trigger] streaks.0@[i] == (rows[i].0, as_counter(longest_run(rows[i].1)))
}

impl AnalyzerTrait for Analyzer {
    type State = AuthorDays;

    type Commit = CommitMeta;

    type Model = Seq<(Seq<char>, Seq<i64>)>;

    type Output = Streaks;

    open spec fn model(state: AuthorDays) -> Seq<(Seq<char>, Seq<i64>)> {
        state@
    }

    open spec fn sound(&self, state: AuthorDays) -> bool {
        state.wf()
    }

    open spec fn name(commit: CommitMeta) -> Seq<char> {
        commit.id@
    }

    open spec fn step(&self, model: Seq<(Seq<char>, Seq<i64>)>, commit: CommitMeta) -> Option<
        (Seq<(Seq<char>, Seq<i64>)>, bool),
    > {
        match after_commit(model, commit, filter_text(&self.opts.author)) {
            Some(rows) => Some((rows, false)),
            None => None,
        }
    }

    open spec fn reports(&self, model: Seq<(Seq<char>, Seq<i64>)>, output: Streaks) -> bool {
        streaks_of(model, output)
    }

    fn id(commit: &CommitMeta) -> (id: &CommitId) {
        &commit.id
    }

    fn update(&self, state: &mut AuthorDays, commit: &CommitMeta) -> (next: Result<Control, Error>) {
        match process_commit(commit, &self.opts.author, state) {
            Ok(()) => Ok(Control::Continue),
            Err(e) => Err(e),
        }
    }

    fn finish(&self, state: AuthorDays) -> (output: Streaks) {
        Analyzer::longest_streaks(&state)
    }
}

impl IntoAnalyzer for Options {
    type Analyzer = Analyzer;

    open spec fn makes(self, globals: Globals, analyzer: Analyzer) -> bool {
        analyzer.opts == self && analyzer.globals == globals
    }

    fn into_analyzer(self, globals: Globals) -> (analyzer: Analyzer) {
        Analyzer::new(self, globals)
    }
}

impl Analyzer {
    /// Finds the longest streak of each author in a history, newest commit
    /// first, down to and including `since`. A commit whose time cannot be
    /// read ends the run without a result.
    pub fn analyze(&self, history: &Vec<CommitMeta>, since: Option<CommitId>) -> (streaks: Result<Streaks, Error>)
        ensures
            match outcome(
                self,
                Seq::<(Seq<char>, Seq<i64>)>::empty(),
                history@,
                match since {
                    Some(id) => Some(id@),
                    None => None,
                },
            ) {
                Some(rows) => streaks matches Ok(s) && streaks_of(rows, s),
                None => streaks matches Err(e) && e == Error::corrupt(),
            },
    {
        let start = AuthorDays::new();
        assert(start@ =~= Seq::<(Seq<char>, Seq<i64>)>::empty());
        match run(self, start, history, since) {
            Ok(by_author) => Ok(Self::longest_streaks(&by_author)),
            Err(e) => Err(e),
        }
    }
}

} // verus!
