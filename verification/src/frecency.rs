//! How recently and how often each file changed.
//!
//! The library records, for each path, the age and the size of every change
//! that counts, and ranks the paths once they are scored. The score itself
//! is a floating-point formula over those records and is the caller's.

use vstd::prelude::*;
use crate::analysis::{AnalyzerTrait, IntoAnalyzer};
use crate::changes::is_merge;
use crate::config::{Globals, RepoOptions};
use crate::floats::{at_most_zero_bits, is_at_most_zero};
use crate::model::{Change, CommitId, CommitMeta, Control, Error, Setting};
use crate::order::{compare_text, Place};
use crate::ranking::{rank, ranked, views, Order, Scored};
use crate::table::{get, put, row_keys, TextMap};

verus! {

/// Seconds in one day, for the age of a commit.
pub const SECONDS_PER_DAY: i64 = 86_400;

/// The default exponent of the age weight, as the bits of 2.0.
pub const DEFAULT_AGE_EXPONENT: u64 = 0x4000_0000_0000_0000;

/// The default reference size of the size penalty, as the bits of 1024.0.
pub const DEFAULT_SIZE_PENALTY_REF: u64 = 0x4090_0000_0000_0000;

/// What a frecency analysis is asked to do.
#[derive(Clone, Debug)]
pub struct Options {
    pub repo: RepoOptions,
    /// The only paths to score, if given.
    pub paths: Option<Vec<String>>,
    /// Stop after this many commits were scored.
    pub max_commits: Option<usize>,
    /// The direction of the ranking.
    pub order: Order,
    /// Print the paths without their scores.
    pub path_only: bool,
    /// The time to take as now, in seconds since the epoch.
    pub now: Option<i64>,
    /// The exponent of the age weight, as the bits of a binary64 number.
    pub age_exp: u64,
    /// The reference size in bytes of the size penalty, as the bits of a
    /// binary64 number.
    pub size_ref: u64,
}

/// A frecency analysis.
#[derive(Clone, Debug)]
pub struct Analyzer {
    pub opts: Options,
    pub globals: Globals,
}

/// One change of a file that counts towards its score.
#[derive(Clone, Copy, Debug, PartialEq, Eq, Structural)]
pub struct Touch {
    /// The age of the commit in whole days.
    pub age_days: u64,
    /// The size of the blob in bytes.
    pub size: u64,
}

/// What a walk has gathered.
pub struct Tally {
    /// The touches of each path, in the order of the walk.
    pub touches: TextMap<Vec<Touch>>,
    /// The sizes of the blobs seen so far, by blob name.
    pub sizes: TextMap<u64>,
    /// The number of commits scored.
    pub considered: usize,
}

/// What to do with a commit.
#[derive(Clone, Copy, Debug, PartialEq, Eq, Structural)]
pub enum Step {
    /// The cap is reached: the commit is not scored and the walk ends.
    Stop,
    /// A merge: the commit is not scored and does not count.
    Skip,
    /// The commit is scored, its changes with this age in days.
    Score { age_days: u64 },
}

/// What has to be known of a change before it is recorded.
#[derive(Clone, Copy, Debug, PartialEq, Eq, Structural)]
pub enum SizeQuery {
    /// The change does not count.
    NotScored,
    /// The size of the blob is known from an earlier change.
    Known(u64),
    /// The size of the blob has to be read from the repository.
    Lookup,
}

/// The age of a commit in whole days: the days between its time and now,
/// rounded down, and 0 for a commit from the future.
pub open spec fn age_days_of(now: i64, commit_seconds: i64) -> int {
    if now - commit_seconds < 0 {
        0
    } else {
        (now - commit_seconds) / 86_400
    }
}

/// Of two commits the one made earlier is at least as old in days, and no
/// commit has a negative age.
pub proof fn lemma_age_grows_with_time(now: i64, earlier: i64, later: i64)
    requires
        earlier <= later,
    ensures
        age_days_of(now, earlier) >= age_days_of(now, later) >= 0,
{
}

/// The touches of each path as values.
pub open spec fn touch_rows(touches: TextMap<Vec<Touch>>) -> Seq<(Seq<char>, Seq<Touch>)> {
    Seq::new(touches.keys@.len(), |i: int| (touches.keys@[i]@, touches.values@[i]@))
}

/// Whether a path is one of the listed paths.
pub open spec fn listed(paths: Seq<String>, path: Seq<char>) -> bool {
    exists|i: int| 0 <= i < paths.len() && (#[trigger] paths[i])@ == path
}

/// Whether a path is scored: every path is when no paths are given.
pub open spec fn path_scored(paths: Option<Vec<String>>, path: Seq<char>) -> bool {
    match paths {
        Some(list) => listed(list@, path),
        None => true,
    }
}

/// The blob that a change brings, where the change counts: additions and
/// modifications of files do.
pub open spec fn scored_blob(change: Change) -> Option<Seq<char>> {
    match change {
        Change::Addition { id, mode, .. } => if mode.blob() {
            Some(id@)
        } else {
            None
        },
        Change::Modification { id, mode, .. } => if mode.blob() {
            Some(id@)
        } else {
            None
        },
        _ => None,
    }
}

/// Whether a change counts towards the score of its path.
pub open spec fn scores(change: Change, paths: Option<Vec<String>>) -> bool {
    scored_blob(change) is Some && path_scored(paths, change.location())
}

/// The size to take for a blob: the size seen before for it, else the size
/// just read, and 0 where it could not be read.
pub open spec fn size_for(sizes: Seq<(Seq<char>, u64)>, blob: Seq<char>, looked_up: Option<u64>) -> u64 {
    match get(sizes, blob) {
        Some(size) => size,
        None => match looked_up {
            Some(size) => size,
            None => 0,
        },
    }
}

/// The touches of a path so far; none for a new path.
pub open spec fn touches_of(rows: Seq<(Seq<char>, Seq<Touch>)>, path: Seq<char>) -> Seq<Touch> {
    match get(rows, path) {
        Some(list) => list,
        None => Seq::empty(),
    }
}

/// The touches after one more touch of `path`.
pub open spec fn touched(rows: Seq<(Seq<char>, Seq<Touch>)>, path: Seq<char>, touch: Touch) -> Seq<
    (Seq<char>, Seq<Touch>),
> {
    put(rows, path, touches_of(rows, path).push(touch))
}

/// The limit on the number of commits scored.
pub open spec fn limit_of(max_commits: Option<usize>) -> int {
    match max_commits {
        Some(n) => n as int,
        None => usize::MAX as int,
    }
}

impl Tally {
    /// Rows ascending.
    pub open spec fn wf(&self) -> bool {
        &&& self.touches.wf()
        &&& self.sizes.wf()
    }

    /// Nothing gathered yet.
    pub fn new() -> (tally: Tally)
        ensures
            tally.wf(),
            touch_rows(tally.touches).len() == 0,
            tally.sizes@.len() == 0,
            tally.considered == 0,
    {
        Tally { touches: TextMap::new(), sizes: TextMap::new(), considered: 0 }
    }

    /// Adds a touch to the touches of `path`.
    fn add_touch(&mut self, path: String, touch: Touch)
        requires
            old(self).wf(),
        ensures
            final(self).wf(),
            touch_rows(final(self).touches) == touched(touch_rows(old(self).touches), path@, touch),
            final(self).sizes == old(self).sizes,
            final(self).considered == old(self).considered,
    {
        let ghost before = touch_rows(self.touches);
        assert(row_keys(before) =~= self.touches.key_seq());
        let (pos, found) = self.touches.locate(path.as_str());
        if found {
            let ghost keys = self.touches.key_seq();
            let ghost had = self.touches.values@[pos as int]@;
            let mut list: Vec<Touch> = Vec::new();
            std::mem::swap(&mut list, &mut self.touches.values[pos]);
            list.push(touch);
            self.touches.set_value(pos, list);
            assert(self.touches.key_seq() =~= keys);
            assert(touch_rows(self.touches) =~= before.update(pos as int, (path@, had.push(touch))));
        } else {
            let mut list: Vec<Touch> = Vec::new();
            list.push(touch);
            assert(list@ =~= Seq::<Touch>::empty().push(touch));
            self.touches.insert_at(pos, path, list);
            assert(touch_rows(self.touches) =~= before.insert(
                pos as int,
                (path@, Seq::<Touch>::empty().push(touch)),
            ));
        }
    }
}

impl Analyzer {
    /// An analysis with the given options.
    pub fn new(opts: Options, globals: Globals) -> (analyzer: Analyzer)
        ensures
            analyzer.opts == opts,
            analyzer.globals == globals,
    {
        Analyzer { opts, globals }
    }

    /// Checks the options before a walk begins: the reference size must be
    /// greater than zero.
    pub fn validate(&self) -> (checked: Result<(), Error>)
        ensures
            !at_most_zero_bits(self.opts.size_ref) ==> checked is Ok,
            at_most_zero_bits(self.opts.size_ref) ==> checked == Err::<(), Error>(
                Error::invalid(Setting::SizeReference),
            ),
    {
        if is_at_most_zero(self.opts.size_ref) {
            Err(Error::invalid_configuration(Setting::SizeReference))
        } else {
            Ok(())
        }
    }

    /// The time to take as now: the one given, else what the clock says.
    pub fn reference_time(&self, clock: i64) -> (now: i64)
        ensures
            now == (match self.opts.now {
                Some(t) => t,
                None => clock,
            }),
    {
        match self.opts.now {
            Some(t) => t,
            None => clock,
        }
    }

    /// The age of a commit in whole days.
    pub fn age_days(now: i64, commit_seconds: i64) -> (days: u64)
        ensures
            days == age_days_of(now, commit_seconds),
    {
        let age: i128 = now as i128 - commit_seconds as i128;
        if age < 0 {
            0
        } else {
            (age / 86_400) as u64
        }
    }

    /// Whether a path is scored.
    pub fn path_allowed(&self, path: &str) -> (ok: bool)
        ensures
            ok == path_scored(self.opts.paths, path@),
    {
        match &self.opts.paths {
            Some(list) => {
                let mut i: usize = 0;
                while i < list.len()
                    invariant
                        self.opts.paths == Some(*list),
                        i <= list@.len(),
                        forall|j: int| 0 <= j < i ==> (#[trigger] list@[j])@ != path@,
                    decreases list@.len() - i,
                {
                    match compare_text(list[i].as_str(), path) {
                        Place::Same => {
                            return true;
                        },
                        _ => {},
                    }
                    i += 1;
                }
                false
            },
            None => true,
        }
    }

    /// Decides what to do with a commit. Once as many commits were scored
    /// as the cap allows, the walk ends; a merge is passed over and does not
    /// count; any other commit counts and is scored with its age.
    pub fn begin_commit(&self, tally: &mut Tally, commit: &CommitMeta, commit_seconds: i64, now: i64) -> (step:
        Step)
        requires
            old(tally).wf(),
        ensures
            final(tally).wf(),
            final(tally).touches == old(tally).touches,
            final(tally).sizes == old(tally).sizes,
            old(tally).considered >= limit_of(self.opts.max_commits) ==> step == Step::Stop
                && final(tally).considered == old(tally).considered,
            old(tally).considered < limit_of(self.opts.max_commits) && commit.parents@.len() >= 2
                ==> step == Step::Skip && final(tally).considered == old(tally).considered,
            old(tally).considered < limit_of(self.opts.max_commits) && commit.parents@.len() < 2 ==> step
                == (Step::Score { age_days: age_days_of(now, commit_seconds) as u64 })
                && final(tally).considered == old(tally).considered + 1,
    {
        let limit = match self.opts.max_commits {
            Some(n) => n,
            None => usize::MAX,
        };
        if tally.considered >= limit {
            return Step::Stop;
        }
        if is_merge(commit) {
            return Step::Skip;
        }
        tally.considered = tally.considered + 1;
        Step::Score { age_days: Self::age_days(now, commit_seconds) }
    }

    /// Says whether the walk goes on after a commit: it ends once the cap is
    /// reached.
    pub fn end_commit(&self, tally: &Tally) -> (next: Control)
        ensures
            next == (if tally.considered >= limit_of(self.opts.max_commits) {
                Control::Stop
            } else {
                Control::Continue
            }),
    {
        let limit = match self.opts.max_commits {
            Some(n) => n,
            None => usize::MAX,
        };
        if tally.considered >= limit {
            Control::Stop
        } else {
            Control::Continue
        }
    }

    /// Says what has to be known of a change before it is recorded: nothing
    /// if it does not count; else the size of its blob, which the tally may
    /// hold already.
    pub fn extract_change_info(&self, tally: &Tally, change: &Change) -> (query: SizeQuery)
        requires
            tally.wf(),
        ensures
            !scores(*change, self.opts.paths) ==> query == SizeQuery::NotScored,
            scores(*change, self.opts.paths) ==> query == (match get(
                tally.sizes@,
                scored_blob(*change)->0,
            ) {
                Some(size) => SizeQuery::Known(size),
                None => SizeQuery::Lookup,
            }),
    {
        let id = match change {
            Change::Addition { id, mode, .. } => {
                if !mode.is_blob() {
                    return SizeQuery::NotScored;
                }
                id
            },
            Change::Modification { id, mode, .. } => {
                if !mode.is_blob() {
                    return SizeQuery::NotScored;
                }
                id
            },
            _ => {
                return SizeQuery::NotScored;
            },
        };
        if !self.path_allowed(change.path().as_str()) {
            return SizeQuery::NotScored;
        }
        match tally.sizes.get(id.name.as_str()) {
            Some(size) => SizeQuery::Known(*size),
            None => SizeQuery::Lookup,
        }
    }

    /// Records a change of a commit of the given age. A change that counts
    /// adds a touch to its path, with the size of its blob: the size seen
    /// before for that blob, else the size read, which is then kept.
    pub fn update_score(&self, tally: &mut Tally, change: &Change, age_days: u64, looked_up: Option<u64>)
        requires
            old(tally).wf(),
        ensures
            final(tally).wf(),
            final(tally).considered == old(tally).considered,
            !scores(*change, self.opts.paths) ==> final(tally).touches == old(tally).touches,
            !scores(*change, self.opts.paths) ==> final(tally).sizes == old(tally).sizes,
            scores(*change, self.opts.paths) ==> {
                let blob = scored_blob(*change)->0;
                let size = size_for(old(tally).sizes@, blob, looked_up);
                &&& final(tally).sizes@ == put(old(tally).sizes@, blob, size)
                &&& touch_rows(final(tally).touches) == touched(
                    touch_rows(old(tally).touches),
                    change.location(),
                    Touch { age_days, size },
                )
            },
    {
        let size = match self.extract_change_info(tally, change) {
            SizeQuery::NotScored => {
                return ;
            },
            SizeQuery::Known(size) => size,
            SizeQuery::Lookup => match looked_up {
                Some(size) => size,
                None => 0,
            },
        };
        let id = match change {
            Change::Addition { id, .. } => id,
            Change::Modification { id, .. } => id,
            _ => {
                return ;
            },
        };
        tally.sizes.put(id.name.clone(), size);
        tally.add_touch(change.path().clone(), Touch { age_days, size });
    }

    /// Ranks the scored paths: by score in the direction asked for, paths of
    /// equal score by path.
    pub fn sort_scores(&self, scores: Vec<Scored>) -> (out: Vec<Scored>)
        ensures
            ranked(views(out@), self.opts.order),
            views(out@).to_multiset() == views(scores@).to_multiset(),
            out@.len() == scores@.len(),
    {
        rank(scores, self.opts.order)
    }
}

/// A change with the size that was read for the blob it brings; no size
/// where none could be read.
pub struct Sighting {
    pub change: Change,
    pub size: Option<u64>,
}

/// A commit with the time it was made at, in seconds since the epoch, and
/// its changes against its parent's tree.
pub struct Revision {
    pub commit: CommitMeta,
    pub seconds: i64,
    pub changes: Vec<Sighting>,
}

/// The state of a walk: what was gathered, and the time taken as now.
pub struct Session {
    pub tally: Tally,
    pub now: i64,
}

/// The state of a walk as values.
pub struct SessionView {
    pub touches: Seq<(Seq<char>, Seq<Touch>)>,
    pub sizes: Seq<(Seq<char>, u64)>,
    pub considered: usize,
    pub now: i64,
}

impl View for Session {
    type V = SessionView;

    open spec fn view(&self) -> SessionView {
        SessionView {
            touches: touch_rows(self.tally.touches),
            sizes: self.tally.sizes@,
            considered: self.tally.considered,
            now: self.now,
        }
    }
}

/// The state after a change of a commit of the given age was recorded.
pub open spec fn recorded(view: SessionView, paths: Option<Vec<String>>, sighting: Sighting, age_days: u64) -> SessionView {
    if scores(sighting.change, paths) {
        let blob = scored_blob(sighting.change)->0;
        let size = size_for(view.sizes, blob, sighting.size);
        SessionView {
            touches: touched(view.touches, sighting.change.location(), Touch { age_days, size }),
            sizes: put(view.sizes, blob, size),
            considered: view.considered,
            now: view.now,
        }
    } else {
        view
    }
}

/// The state after the changes of a commit were recorded, in their order.
pub open spec fn after_changes(view: SessionView, paths: Option<Vec<String>>, changes: Seq<Sighting>, age_days: u64) -> SessionView
    decreases changes.len(),
{
    if changes.len() == 0 {
        view
    } else {
        recorded(after_changes(view, paths, changes.drop_last(), age_days), paths, changes.last(), age_days)
    }
}

/// The state after a commit, and whether the walk ends with it. Once the
/// cap is reached nothing is scored and the walk ends; a merge changes
/// nothing; any other commit counts, its changes are recorded with its age,
/// and the walk ends if the cap is reached with it.
pub open spec fn after_commit(view: SessionView, paths: Option<Vec<String>>, limit: int, commit: Revision) -> (
    SessionView,
    bool,
) {
    if view.considered >= limit {
        (view, true)
    } else if commit.commit.parents@.len() >= 2 {
        (view, false)
    } else {
        let counted = SessionView {
            touches: view.touches,
            sizes: view.sizes,
            considered: (view.considered + 1) as usize,
            now: view.now,
        };
        let next = after_changes(
            counted,
            paths,
            commit.changes@,
            age_days_of(view.now, commit.seconds) as u64,
        );
        (next, next.considered >= limit)
    }
}

impl Session {
    /// The state of a walk that has seen no commit.
    pub fn new(now: i64) -> (session: Session)
        ensures
            session.tally.wf(),
            session@.touches.len() == 0,
            session@.sizes.len() == 0,
            session@.considered == 0,
            session@.now == now,
    {
        Session { tally: Tally::new(), now }
    }
}

impl AnalyzerTrait for Analyzer {
    type State = Session;

    type Commit = Revision;

    type Model = SessionView;

    type Output = TextMap<Vec<Touch>>;

    open spec fn model(state: Session) -> SessionView {
        state@
    }

    open spec fn sound(&self, state: Session) -> bool {
        state.tally.wf()
    }

    open spec fn name(commit: Revision) -> Seq<char> {
        commit.commit.id@
    }

    open spec fn step(&self, model: SessionView, commit: Revision) -> Option<(SessionView, bool)> {
        Some(after_commit(model, self.opts.paths, limit_of(self.opts.max_commits), commit))
    }

    open spec fn reports(&self, model: SessionView, output: TextMap<Vec<Touch>>) -> bool {
        output.wf() && touch_rows(output) == model.touches
    }

    fn id(commit: &Revision) -> (id: &CommitId) {
        &commit.commit.id
    }

    fn update(&self, state: &mut Session, commit: &Revision) -> (next: Result<Control, Error>) {
        let ghost before = state@;
        match self.begin_commit(&mut state.tally, &commit.commit, commit.seconds, state.now) {
            Step::Stop => Ok(Control::Stop),
            Step::Skip => Ok(Control::Continue),
            Step::Score { age_days } => {
                let ghost counted = state@;
                let mut i: usize = 0;
                while i < commit.changes.len()
                    invariant
                        i <= commit.changes@.len(),
                        state.tally.wf(),
                        state@ == after_changes(counted, self.opts.paths, commit.changes@.take(i as int), age_days),
                    decreases commit.changes@.len() - i,
                {
                    proof {
                        assert(commit.changes@.take(i + 1).drop_last() =~= commit.changes@.take(i as int));
                        assert(commit.changes@.take(i + 1).last() == commit.changes@[i as int]);
                    }
                    self.update_score(&mut state.tally, &commit.changes[i].change, age_days, commit.changes[i].size);
                    i += 1;
                }
                proof {
                    assert(commit.changes@.take(i as int) =~= commit.changes@);
                }
                Ok(self.end_commit(&state.tally))
            },
        }
    }

    fn finish(&self, state: Session) -> (output: TextMap<Vec<Touch>>) {
        state.tally.touches
    }
}

impl IntoAnalyzer for Options {
    type Analyzer = Analyzer;

    open spec fn makes(self, globals: Globals, analyzer: Analyzer) -> bool {
        analyzer.opts == self && analyzer.globals == globals
    }

    fn into_analyzer(self, globals: Globals) -> (analyzer: Analyzer) {
        Analyzer::new(self, globals)
    }
}

} // verus!
