//! The bounds of a walk and the rule that ends it.
//!
//! The caller owns the repository: it resolves revisions, asks for the
//! ancestors of the start one by one, and tells the walker about each commit
//! it has visited. The walker says when to stop.

use vstd::prelude::*;
use crate::model::{CommitId, Control, Error, WalkRange};

verus! {

/// What the repository answered for a revision.
pub enum Resolution {
    /// No revision was asked for.
    NotGiven,
    /// The revision names this commit.
    Commit(CommitId),
    /// The revision names no reachable commit.
    Unknown,
}

/// The revision a walk starts from: `until` where it is given, else `rev_spec`.
pub fn start_revision<'a>(rev_spec: &'a String, until: &'a Option<String>) -> (spec: &'a String)
    ensures
        until is Some ==> *spec == until->0,
        until is None ==> *spec == *rev_spec,
{
    match until {
        Some(u) => u,
        None => rev_spec,
    }
}

/// Makes the range of a walk from what the repository resolved.
///
/// The start must name a commit; the lower bound may be absent, but if one
/// was asked for it must name a commit too.
pub fn resolve(start: Resolution, since: Resolution) -> (range: Result<WalkRange, Error>)
    ensures
        (start is Commit && !(since is Unknown)) ==> range is Ok,
        !(start is Commit) || since is Unknown ==> range == Err::<WalkRange, Error>(
            Error::unresolvable(),
        ),
        range matches Ok(r) ==> {
            &&& start matches Resolution::Commit(s) && r.start == s
            &&& since matches Resolution::Commit(b) ==> r.since == Some(b)
            &&& since is NotGiven ==> r.since is None
        },
{
    match start {
        Resolution::Commit(s) => match since {
            Resolution::NotGiven => Ok(WalkRange { start: s, since: None }),
            Resolution::Commit(b) => Ok(WalkRange { start: s, since: Some(b) }),
            Resolution::Unknown => Err(Error::unresolvable_revision()),
        },
        _ => Err(Error::unresolvable_revision()),
    }
}

/// Makes the range of a walk over a repository. A repository without any
/// commit has no range, whatever its revisions resolve to: its analysis is
/// empty, and no error.
pub fn plan(has_commits: bool, start: Resolution, since: Resolution) -> (range: Result<Option<WalkRange>, Error>)
    ensures
        !has_commits ==> range == Ok::<Option<WalkRange>, Error>(None),
        has_commits && start is Commit && !(since is Unknown) ==> range matches Ok(Some(_)),
        has_commits && (!(start is Commit) || since is Unknown) ==> range == Err::<Option<WalkRange>, Error>(
            Error::unresolvable(),
        ),
        range matches Ok(Some(r)) ==> {
            &&& start matches Resolution::Commit(s) && r.start == s
            &&& since matches Resolution::Commit(b) ==> r.since == Some(b)
            &&& since is NotGiven ==> r.since is None
        },
{
    if !has_commits {
        return Ok(None);
    }
    match resolve(start, since) {
        Ok(range) => Ok(Some(range)),
        Err(e) => Err(e),
    }
}

/// How many of `ids`, taken in order, a walk visits: all of them up to and
/// including the first that equals `since`; all of them if none does.
pub open spec fn visited_count(ids: Seq<Seq<char>>, since: Option<Seq<char>>) -> nat
    decreases ids.len(),
{
    if ids.len() == 0 {
        0
    } else if since == Some(ids[0]) {
        1
    } else {
        1 + visited_count(ids.drop_first(), since)
    }
}

/// The commits that a walk visits, in order.
pub open spec fn visited(ids: Seq<Seq<char>>, since: Option<Seq<char>>) -> Seq<Seq<char>> {
    ids.take(visited_count(ids, since) as int)
}

/// A walk never visits more commits than there are.
pub proof fn lemma_visited_count_bound(ids: Seq<Seq<char>>, since: Option<Seq<char>>)
    ensures
        visited_count(ids, since) <= ids.len(),
        ids.len() > 0 ==> visited_count(ids, since) >= 1,
    decreases ids.len(),
{
    if ids.len() > 0 && since != Some(ids[0]) {
        lemma_visited_count_bound(ids.drop_first(), since);
    }
}

/// The lower bound is visited last, and nothing before it equals it.
pub proof fn lemma_visited_ends_at_since(ids: Seq<Seq<char>>, since: Seq<char>)
    ensures
        forall|i: int|
            0 <= i < visited_count(ids, Some(since)) - 1 ==> #[trigger] ids[i] != since,
        visited_count(ids, Some(since)) < ids.len() ==> ids[visited_count(ids, Some(since)) - 1]
            == since,
    decreases ids.len(),
{
    lemma_visited_count_bound(ids, Some(since));
    if ids.len() > 0 && ids[0] != since {
        let rest = ids.drop_first();
        lemma_visited_ends_at_since(rest, since);
        lemma_visited_count_bound(rest, Some(since));
        assert forall|i: int| 0 <= i < visited_count(ids, Some(since)) - 1 implies #[trigger] ids[i]
            != since by {
            if i > 0 {
                assert(ids[i] == rest[i - 1]);
            }
        }
        if visited_count(ids, Some(since)) < ids.len() {
            assert(rest[visited_count(rest, Some(since)) - 1] == since);
        }
    }
}

/// The state of a walk: its lower bound, and whether it has ended.
pub struct Walker {
    pub since: Option<CommitId>,
    pub finished: bool,
}

impl Walker {
    /// The lower bound as a value.
    pub open spec fn bound(&self) -> Option<Seq<char>> {
        match self.since {
            Some(id) => Some(id@),
            None => None,
        }
    }

    /// A walk that has visited nothing yet.
    pub fn begin(since: Option<CommitId>) -> (walker: Walker)
        ensures
            !walker.finished,
            walker.since == since,
    {
        Walker { since, finished: false }
    }

    /// Whether the walk has ended: no further ancestor is to be asked for.
    pub fn is_finished(&self) -> (done: bool)
        ensures
            done == self.finished,
    {
        self.finished
    }

    /// Whether `id` is the lower bound of the walk.
    pub fn reaches_bound(&self, id: &CommitId) -> (hit: bool)
        ensures
            hit == (self.bound() == Some(id@)),
    {
        match &self.since {
            Some(bound) => bound.same(id),
            None => false,
        }
    }

    /// Takes note that commit `id` has been visited, and of what its visitor
    /// asked. The walk ends with the lower bound, which is visited, or when
    /// the visitor asks to stop; a walk that has ended stays ended.
    pub fn visited(&mut self, id: &CommitId, control: Control) -> (next: Control)
        ensures
            final(self).since == old(self).since,
            final(self).finished == (old(self).finished || control == Control::Stop || old(self).bound()
                == Some(id@)),
            next == (if final(self).finished {
                Control::Stop
            } else {
                Control::Continue
            }),
    {
        let hit = self.reaches_bound(id);
        let stop = match control {
            Control::Stop => true,
            Control::Continue => false,
        };
        if hit || stop || self.finished {
            self.finished = true;
            Control::Stop
        } else {
            Control::Continue
        }
    }
}

/// The texts of a list of identifiers.
pub open spec fn names(ids: Seq<CommitId>) -> Seq<Seq<char>> {
    Seq::new(ids.len(), |i: int| ids[i]@)
}

/// Counts the commits that a walk over `ancestors` visits when no visitor
/// asks to stop: the ancestors in their order, up to and including `since`.
pub fn walk_length(ancestors: &Vec<CommitId>, since: Option<CommitId>) -> (n: usize)
    ensures
        n == visited_count(names(ancestors@), match since {
            Some(id) => Some(id@),
            None => None,
        }),
        n <= ancestors.len(),
{
    let ghost all = names(ancestors@);
    let mut walker = Walker::begin(since);
    let ghost bound = walker.bound();
    let mut i: usize = 0;
    proof {
        assert(all.skip(0) =~= all);
    }
    while i < ancestors.len() && !walker.is_finished()
        invariant
            i <= ancestors.len(),
            all == names(ancestors@),
            walker.bound() == bound,
            !walker.finished ==> visited_count(all, bound) == i + visited_count(
                all.skip(i as int),
                bound,
            ),
            walker.finished ==> visited_count(all, bound) == i,
        decreases ancestors.len() - i,
    {
        let ghost rest = all.skip(i as int);
        proof {
            assert(rest[0] == ancestors@[i as int]@);
            assert(rest.drop_first() =~= all.skip(i + 1));
        }
        let _ = walker.visited(&ancestors[i], Control::Continue);
        i += 1;
    }
    proof {
        if !walker.finished {
            assert(all.skip(i as int).len() == 0);
        }
    }
    i
}

} // verus!
