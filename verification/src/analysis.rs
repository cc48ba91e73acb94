//! What all analyses share: each takes the commits of a walk one by one,
//! updates its state, and makes its report at the end.

use vstd::prelude::*;
use crate::config::Globals;
use crate::model::{CommitId, Control, Error};
use crate::walk::Walker;

verus! {

/// An analysis of a history.
pub trait AnalyzerTrait {
    /// What accumulates during a walk.
    type State;

    /// What the analysis is handed for each commit.
    type Commit;

    /// The state as a value.
    type Model;

    /// What the analysis reports.
    type Output;

    /// The value of a state.
    spec fn model(state: Self::State) -> Self::Model;

    /// Whether a state is one that the analysis can have.
    spec fn sound(&self, state: Self::State) -> bool;

    /// The identifier of a commit.
    spec fn name(commit: Self::Commit) -> Seq<char>;

    /// The state after a commit, and whether the walk ends with it; nothing
    /// for a commit that cannot be read.
    spec fn step(&self, model: Self::Model, commit: Self::Commit) -> Option<(Self::Model, bool)>;

    /// Whether `output` is the report for a state.
    spec fn reports(&self, model: Self::Model, output: Self::Output) -> bool;

    /// The identifier of a commit.
    fn id(commit: &Self::Commit) -> (id: &CommitId)
        ensures
            id@ == Self::name(*commit),
    ;

    /// Takes one commit into the state and says whether the walk goes on.
    fn update(&self, state: &mut Self::State, commit: &Self::Commit) -> (next: Result<Control, Error>)
        requires
            self.sound(*old(state)),
        ensures
            self.sound(*final(state)),
            match self.step(Self::model(*old(state)), *commit) {
                Some((m, stop)) => Self::model(*final(state)) == m && next == Ok::<Control, Error>(
                    if stop {
                        Control::Stop
                    } else {
                        Control::Continue
                    },
                ),
                None => next == Err::<Control, Error>(Error::corrupt()),
            },
    ;

    /// Makes the report.
    fn finish(&self, state: Self::State) -> (output: Self::Output)
        requires
            self.sound(state),
        ensures
            self.reports(Self::model(state), output),
    ;
}

/// Options that make an analysis.
pub trait IntoAnalyzer: Sized {
    type Analyzer: AnalyzerTrait;

    /// Whether `analyzer` is the analysis for these options.
    spec fn makes(self, globals: Globals, analyzer: Self::Analyzer) -> bool;

    /// Makes the analysis for these options.
    fn into_analyzer(self, globals: Globals) -> (analyzer: Self::Analyzer)
        ensures
            self.makes(globals, analyzer),
    ;
}

/// The state after the commits of a history, newest first, were handed to
/// an analysis one by one: down to and including the first that is `since`
/// or that the analysis ends the walk with; all of them if there is none.
/// Nothing if one of these commits cannot be read.
pub open spec fn outcome<A: AnalyzerTrait>(
    analyzer: &A,
    model: A::Model,
    history: Seq<A::Commit>,
    since: Option<Seq<char>>,
) -> Option<A::Model>
    decreases history.len(),
{
    if history.len() == 0 {
        Some(model)
    } else {
        match analyzer.step(model, history[0]) {
            Some((next, stop)) => if stop || since == Some(A::name(history[0])) {
                Some(next)
            } else {
                outcome(analyzer, next, history.drop_first(), since)
            },
            None => None,
        }
    }
}

/// Walks a history, newest commit first, and hands each commit to the
/// analysis: down to and including `since`, or until the analysis ends the
/// walk. A commit that cannot be read ends the run without a state.
pub fn run<A: AnalyzerTrait>(analyzer: &A, initial: A::State, history: &Vec<A::Commit>, since: Option<CommitId>) -> (end:
    Result<A::State, Error>)
    requires
        analyzer.sound(initial),
    ensures
        match outcome(
            analyzer,
            A::model(initial),
            history@,
            match since {
                Some(id) => Some(id@),
                None => None,
            },
        ) {
            Some(m) => end matches Ok(s) && analyzer.sound(s) && A::model(s) == m,
            None => end matches Err(e) && e == Error::corrupt(),
        },
{
    let ghost start = A::model(initial);
    let mut state = initial;
    let mut walker = Walker::begin(since);
    let ghost bound = walker.bound();
    let mut i: usize = 0;
    proof {
        assert(history@.skip(0) =~= history@);
    }
    while i < history.len() && !walker.is_finished()
        invariant
            i <= history@.len(),
            analyzer.sound(state),
            start == A::model(initial),
            walker.bound() == bound,
            bound == (match since {
                Some(id) => Some(id@),
                None => None,
            }),
            !walker.finished ==> outcome(analyzer, start, history@, bound) == outcome(
                analyzer,
                A::model(state),
                history@.skip(i as int),
                bound,
            ),
            walker.finished ==> outcome(analyzer, start, history@, bound) == Some(A::model(state)),
        decreases history@.len() - i,
    {
        proof {
            let rest = history@.skip(i as int);
            assert(rest[0] == history@[i as int]);
            assert(rest.drop_first() =~= history@.skip(i + 1));
        }
        let control = match analyzer.update(&mut state, &history[i]) {
            Ok(c) => c,
            Err(e) => {
                return Err(e);
            },
        };
        let _ = walker.visited(A::id(&history[i]), control);
        i += 1;
    }
    proof {
        if !walker.finished {
            assert(history@.skip(i as int).len() == 0);
        }
    }
    Ok(state)
}

} // verus!
