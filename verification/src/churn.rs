//! Lines added and removed, per author or per file.

use vstd::prelude::*;
use crate::analysis::{outcome, AnalyzerTrait, IntoAnalyzer};
use crate::config::{Globals, RepoOptions};
use crate::lines::{as_counter, count_lines_in_bytes, line_count};
use crate::model::{Change, CommitId, CommitMeta, Control, Error};
use crate::sums::{capped_add, capped_sum, total, lemma_total_insert, lemma_total_update, lemma_total_bounds_each};
use crate::table::{get, put, row_keys, slot, has_key, sorted_rows, lemma_put_sorted, TextMap};
use crate::text::{author_key, author_matches, filter_text, identity, passes};

verus! {

/// Lines added and removed under one key.
#[derive(Clone, Copy, Debug, PartialEq, Eq, Structural)]
pub struct Counts {
    pub added: u32,
    pub removed: u32,
}

/// The totals of a run, by key in ascending order.
pub struct Summary {
    pub totals: TextMap<Counts>,
}

/// What a churn analysis is asked to do.
#[derive(Clone, Debug)]
pub struct Options {
    pub repo: RepoOptions,
    /// Group by file path instead of by author.
    pub per_file: bool,
    /// Only count commits whose author matches this pattern.
    pub author: Option<String>,
}

/// A churn analysis.
#[derive(Clone, Debug)]
pub struct Analyzer {
    pub opts: Options,
    pub globals: Globals,
}

/// Lines inserted and removed between two versions of a file.
#[derive(Clone, Copy, Debug, PartialEq, Eq, Structural)]
pub struct LineDiff {
    pub insertions: u32,
    pub removals: u32,
}

/// A change together with what was read for it from the repository:
/// the content of the blob that `wants` names, and the line statistics of
/// a modified file. What could not be read is absent.
pub struct Measured {
    pub change: Change,
    pub content: Option<Vec<u8>>,
    pub line_diff: Option<LineDiff>,
}

/// A commit with its changes against its base tree, each change measured.
pub struct Measurements {
    pub commit: CommitMeta,
    pub items: Vec<Measured>,
}

/// What has to be read from the repository for a change.
#[derive(Clone, Copy, Debug, PartialEq, Eq, Structural)]
pub enum Want {
    /// The change adds no lines and removes none.
    Nothing,
    /// The content of the blob that the change brings.
    NewContent,
    /// The content of the blob that the change takes away.
    OldContent,
    /// The line statistics between the old and the new blob.
    LineDiff,
}

/// What a change needs: an added file its content, a deleted file the
/// content it had, a modified file the line statistics; an entry that turns
/// into a file or stops being one counts as added or deleted. Renames and
/// entries that are no files need nothing.
pub open spec fn want(change: Change) -> Want {
    match change {
        Change::Addition { mode, .. } => if mode.blob() {
            Want::NewContent
        } else {
            Want::Nothing
        },
        Change::Deletion { mode, .. } => if mode.blob() {
            Want::OldContent
        } else {
            Want::Nothing
        },
        Change::Modification { previous_mode, mode, .. } => if previous_mode.blob() && mode.blob() {
            Want::LineDiff
        } else if mode.blob() {
            Want::NewContent
        } else if previous_mode.blob() {
            Want::OldContent
        } else {
            Want::Nothing
        },
        Change::Rewrite { .. } => Want::Nothing,
    }
}

/// Lines of a blob's content; a blob that could not be read has none.
pub open spec fn content_lines(content: Option<Vec<u8>>) -> u32 {
    match content {
        Some(data) => as_counter(line_count(data@)),
        None => 0,
    }
}

/// What a measured change contributes, if anything.
pub open spec fn delta(item: Measured) -> Option<Counts> {
    match want(item.change) {
        Want::Nothing => None,
        Want::NewContent => Some(Counts { added: content_lines(item.content), removed: 0 }),
        Want::OldContent => Some(Counts { added: 0, removed: content_lines(item.content) }),
        Want::LineDiff => match item.line_diff {
            Some(d) => Some(Counts { added: d.insertions, removed: d.removals }),
            None => None,
        },
    }
}

/// The key that a change is counted under.
pub open spec fn key_for(per_file: bool, author: Seq<char>, location: Seq<char>) -> Seq<char> {
    if per_file {
        location
    } else {
        author
    }
}

/// What the rows hold for a key; nothing counts as zero.
pub open spec fn held(rows: Seq<(Seq<char>, Counts)>, key: Seq<char>) -> Counts {
    match get(rows, key) {
        Some(c) => c,
        None => Counts { added: 0, removed: 0 },
    }
}

/// The rows after `added` and `removed` were added to the counts of `key`.
pub open spec fn credited(rows: Seq<(Seq<char>, Counts)>, key: Seq<char>, added: u32, removed: u32) -> Seq<
    (Seq<char>, Counts),
> {
    put(
        rows,
        key,
        Counts {
            added: capped_sum(held(rows, key).added, added),
            removed: capped_sum(held(rows, key).removed, removed),
        },
    )
}

/// The rows after a list of changes, each with the identity of its author,
/// was counted in order.
pub open spec fn tally(rows: Seq<(Seq<char>, Counts)>, per_file: bool, events: Seq<(Seq<char>, Measured)>) -> Seq<
    (Seq<char>, Counts),
>
    decreases events.len(),
{
    if events.len() == 0 {
        rows
    } else {
        let before = tally(rows, per_file, events.drop_last());
        let (author, item) = events.last();
        match delta(item) {
            Some(c) => credited(before, key_for(per_file, author, item.change.location()), c.added, c.removed),
            None => before,
        }
    }
}

/// The changes of one commit, each with the identity of the commit's author.
pub open spec fn by_author(author: Seq<char>, items: Seq<Measured>) -> Seq<(Seq<char>, Measured)> {
    Seq::new(items.len(), |i: int| (author, items[i]))
}

/// Counting one list of changes after another is counting both as one list:
/// the totals of a walk are the totals of all its changes in walk order.
pub proof fn lemma_tally_append(
    rows: Seq<(Seq<char>, Counts)>,
    per_file: bool,
    first: Seq<(Seq<char>, Measured)>,
    second: Seq<(Seq<char>, Measured)>,
)
    ensures
        tally(tally(rows, per_file, first), per_file, second) == tally(rows, per_file, first + second),
    decreases second.len(),
{
    if second.len() == 0 {
        assert(first + second =~= first);
    } else {
        lemma_tally_append(rows, per_file, first, second.drop_last());
        assert((first + second).drop_last() =~= first + second.drop_last());
        assert((first + second).last() == second.last());
    }
}

/// Counting keeps the rows in key order.
pub proof fn lemma_tally_sorted(rows: Seq<(Seq<char>, Counts)>, per_file: bool, events: Seq<(Seq<char>, Measured)>)
    requires
        sorted_rows(rows),
    ensures
        sorted_rows(tally(rows, per_file, events)),
    decreases events.len(),
{
    if events.len() > 0 {
        let before = tally(rows, per_file, events.drop_last());
        lemma_tally_sorted(rows, per_file, events.drop_last());
        let (author, item) = events.last();
        match delta(item) {
            Some(c) => {
                let key = key_for(per_file, author, item.change.location());
                lemma_put_sorted(
                    before,
                    key,
                    Counts {
                        added: capped_sum(held(before, key).added, c.added),
                        removed: capped_sum(held(before, key).removed, c.removed),
                    },
                );
            },
            None => {},
        }
    }
}

impl Analyzer {
    /// An analysis with the given options.
    pub fn new(opts: Options, globals: Globals) -> (analyzer: Analyzer)
        ensures
            analyzer.opts == opts,
            analyzer.globals == globals,
    {
        Analyzer { opts, globals }
    }

    /// The key for a change at `location` by `author`.
    pub fn key(&self, author: &str, location: &str) -> (key: String)
        ensures
            key@ == key_for(self.opts.per_file, author@, location@),
    {
        if self.opts.per_file {
            location.to_owned()
        } else {
            author.to_owned()
        }
    }

    /// Adds to the counts of `key`, starting from zero for a new key.
    pub fn add_total(totals: &mut TextMap<Counts>, key: String, added: u32, removed: u32)
        requires
            old(totals).wf(),
        ensures
            final(totals).wf(),
            final(totals)@ == credited(old(totals)@, key@, added, removed),
    {
        let current = match totals.get(key.as_str()) {
            Some(c) => *c,
            None => Counts { added: 0, removed: 0 },
        };
        let next = Counts {
            added: capped_add(current.added, added),
            removed: capped_add(current.removed, removed),
        };
        totals.put(key, next);
    }

    /// The lines of a blob's content; none where it could not be read.
    pub fn count_lines(content: &Option<Vec<u8>>) -> (lines: u32)
        ensures
            lines == content_lines(*content),
    {
        match content {
            Some(data) => count_lines_in_bytes(data.as_slice()),
            None => 0,
        }
    }

    /// Says what has to be read from the repository before a change can be
    /// counted.
    pub fn wants(change: &Change) -> (w: Want)
        ensures
            w == want(*change),
    {
        match change {
            Change::Addition { mode, .. } => if mode.is_blob() {
                Want::NewContent
            } else {
                Want::Nothing
            },
            Change::Deletion { mode, .. } => if mode.is_blob() {
                Want::OldContent
            } else {
                Want::Nothing
            },
            Change::Modification { previous_mode, mode, .. } => {
                let was = previous_mode.is_blob();
                let is = mode.is_blob();
                if was && is {
                    Want::LineDiff
                } else if is {
                    Want::NewContent
                } else if was {
                    Want::OldContent
                } else {
                    Want::Nothing
                }
            },
            Change::Rewrite { .. } => Want::Nothing,
        }
    }

    /// Counts the lines of an added file.
    fn apply_addition(&self, item: &Measured, author: &str, totals: &mut TextMap<Counts>)
        requires
            old(totals).wf(),
            want(item.change) == Want::NewContent,
        ensures
            final(totals).wf(),
            final(totals)@ == credited(
                old(totals)@,
                key_for(self.opts.per_file, author@, item.change.location()),
                content_lines(item.content),
                0,
            ),
    {
        let lines = Self::count_lines(&item.content);
        let key = self.key(author, item.change.path().as_str());
        Self::add_total(totals, key, lines, 0);
    }

    /// Counts the lines of a deleted file.
    fn apply_deletion(&self, item: &Measured, author: &str, totals: &mut TextMap<Counts>)
        requires
            old(totals).wf(),
            want(item.change) == Want::OldContent,
        ensures
            final(totals).wf(),
            final(totals)@ == credited(
                old(totals)@,
                key_for(self.opts.per_file, author@, item.change.location()),
                0,
                content_lines(item.content),
            ),
    {
        let lines = Self::count_lines(&item.content);
        let key = self.key(author, item.change.path().as_str());
        Self::add_total(totals, key, 0, lines);
    }

    /// Counts the line statistics of a modified file, where there are any.
    fn handle_modification(&self, item: &Measured, author: &str, totals: &mut TextMap<Counts>)
        requires
            old(totals).wf(),
            want(item.change) == Want::LineDiff,
        ensures
            final(totals).wf(),
            final(totals)@ == (match item.line_diff {
                Some(d) => credited(
                    old(totals)@,
                    key_for(self.opts.per_file, author@, item.change.location()),
                    d.insertions,
                    d.removals,
                ),
                None => old(totals)@,
            }),
    {
        match item.line_diff {
            Some(d) => {
                let key = self.key(author, item.change.path().as_str());
                Self::add_total(totals, key, d.insertions, d.removals);
            },
            None => {},
        }
    }

    /// Counts one change for `author`.
    pub fn apply_change(&self, item: &Measured, author: &str, totals: &mut TextMap<Counts>)
        requires
            old(totals).wf(),
        ensures
            final(totals).wf(),
            final(totals)@ == (match delta(*item) {
                Some(c) => credited(
                    old(totals)@,
                    key_for(self.opts.per_file, author@, item.change.location()),
                    c.added,
                    c.removed,
                ),
                None => old(totals)@,
            }),
    {
        match Self::wants(&item.change) {
            Want::Nothing => {},
            Want::NewContent => self.apply_addition(item, author, totals),
            Want::OldContent => self.apply_deletion(item, author, totals),
            Want::LineDiff => self.handle_modification(item, author, totals),
        }
    }

    /// Counts the changes of one commit for `author`, in their order.
    pub fn process_changes(&self, items: &Vec<Measured>, author: &str, totals: &mut TextMap<Counts>)
        requires
            old(totals).wf(),
        ensures
            final(totals).wf(),
            final(totals)@ == tally(old(totals)@, self.opts.per_file, by_author(author@, items@)),
    {
        let ghost start = totals@;
        let ghost events = by_author(author@, items@);
        let mut i: usize = 0;
        while i < items.len()
            invariant
                i <= items.len(),
                totals.wf(),
                events == by_author(author@, items@),
                totals@ == tally(start, self.opts.per_file, events.take(i as int)),
            decreases items.len() - i,
        {
            proof {
                assert(events.take(i + 1).drop_last() =~= events.take(i as int));
                assert(events.take(i + 1).last() == (author@, items@[i as int]));
            }
            self.apply_change(&items[i], author, totals);
            i += 1;
        }
        proof {
            assert(events.take(i as int) =~= events);
        }
    }

    /// Counts a commit: nothing if its author does not pass the filter, else
    /// each of its changes under the author's identity or the file's path.
    pub fn process_commit(&self, commit: &CommitMeta, items: &Vec<Measured>, summary: &mut Summary)
        requires
            old(summary).totals.wf(),
        ensures
            final(summary).totals.wf(),
            final(summary).totals@ == (if passes(
                commit.author_name@,
                commit.author_email@,
                filter_text(&self.opts.author),
            ) {
                tally(
                    old(summary).totals@,
                    self.opts.per_file,
                    by_author(identity(commit.author_name@, commit.author_email@), items@),
                )
            } else {
                old(summary).totals@
            }),
    {
        if !author_matches(commit.author_name.as_str(), commit.author_email.as_str(), &self.opts.author) {
            return ;
        }
        let author = author_key(commit.author_name.as_str(), commit.author_email.as_str());
        self.process_changes(items, author.as_str(), &mut summary.totals);
    }
}

/// The rows after a commit: its changes counted under its author's
/// identity or their paths, if the author passes the filter.
pub open spec fn after_commit(
    rows: Seq<(Seq<char>, Counts)>,
    per_file: bool,
    filter: Option<Seq<char>>,
    commit: Measurements,
) -> Seq<(Seq<char>, Counts)> {
    if passes(commit.commit.author_name@, commit.commit.author_email@, filter) {
        tally(
            rows,
            per_file,
            by_author(identity(commit.commit.author_name@, commit.commit.author_email@), commit.items@),
        )
    } else {
        rows
    }
}

impl AnalyzerTrait for Analyzer {
    type State = Summary;

    type Commit = Measurements;

    type Model = Seq<(Seq<char>, Counts)>;

    type Output = Summary;

    open spec fn model(state: Summary) -> Seq<(Seq<char>, Counts)> {
        state.totals@
    }

    open spec fn sound(&self, state: Summary) -> bool {
        state.totals.wf()
    }

    open spec fn name(commit: Measurements) -> Seq<char> {
        commit.commit.id@
    }

    open spec fn step(&self, model: Seq<(Seq<char>, Counts)>, commit: Measurements) -> Option<
        (Seq<(Seq<char>, Counts)>, bool),
    > {
        Some((after_commit(model, self.opts.per_file, filter_text(&self.opts.author), commit), false))
    }

    open spec fn reports(&self, model: Seq<(Seq<char>, Counts)>, output: Summary) -> bool {
        output.totals.wf() && output.totals@ == model
    }

    fn id(commit: &Measurements) -> (id: &CommitId) {
        &commit.commit.id
    }

    fn update(&self, state: &mut Summary, commit: &Measurements) -> (next: Result<Control, Error>) {
        self.process_commit(&commit.commit, &commit.items, state);
        Ok(Control::Continue)
    }

    fn finish(&self, state: Summary) -> (output: Summary) {
        state
    }
}

impl IntoAnalyzer for Options {
    type Analyzer = Analyzer;

    open spec fn makes(self, globals: Globals, analyzer: Analyzer) -> bool {
        analyzer.opts == self && analyzer.globals == globals
    }

    fn into_analyzer(self, globals: Globals) -> (analyzer: Analyzer) {
        Analyzer::new(self, globals)
    }
}

impl Summary {
    /// The summary of a history without commits.
    pub fn new() -> (summary: Summary)
        ensures
            summary.totals.wf(),
            summary.totals@.len() == 0,
    {
        Summary { totals: TextMap::new() }
    }
}

/// The lines added under each key, in row order.
pub open spec fn added_column(rows: Seq<(Seq<char>, Counts)>) -> Seq<nat> {
    Seq::new(rows.len(), |i: int| rows[i].1.added as nat)
}

/// The lines removed under each key, in row order.
pub open spec fn removed_column(rows: Seq<(Seq<char>, Counts)>) -> Seq<nat> {
    Seq::new(rows.len(), |i: int| rows[i].1.removed as nat)
}

/// The lines that a list of events adds, summed without bound.
pub open spec fn exact_added(events: Seq<(Seq<char>, Measured)>) -> nat
    decreases events.len(),
{
    if events.len() == 0 {
        0
    } else {
        exact_added(events.drop_last()) + match delta(events.last().1) {
            Some(c) => c.added as nat,
            None => 0,
        }
    }
}

/// The lines that a list of events removes, summed without bound.
pub open spec fn exact_removed(events: Seq<(Seq<char>, Measured)>) -> nat
    decreases events.len(),
{
    if events.len() == 0 {
        0
    } else {
        exact_removed(events.drop_last()) + match delta(events.last().1) {
            Some(c) => c.removed as nat,
            None => 0,
        }
    }
}

proof fn lemma_credit_totals(rows: Seq<(Seq<char>, Counts)>, key: Seq<char>, added: u32, removed: u32)
    requires
        sorted_rows(rows),
        total(added_column(rows)) + added <= u32::MAX,
        total(removed_column(rows)) + removed <= u32::MAX,
    ensures
        total(added_column(credited(rows, key, added, removed))) == total(added_column(rows)) + added,
        total(removed_column(credited(rows, key, added, removed))) == total(removed_column(rows))
            + removed,
{
    let keys = row_keys(rows);
    let p = slot(keys, key);
    let out = credited(rows, key, added, removed);
    lemma_put_sorted(rows, key, out[p].1);
    let a = added_column(rows);
    let r = removed_column(rows);
    if has_key(keys, key) {
        lemma_total_bounds_each(a, p);
        lemma_total_bounds_each(r, p);
        let na = (rows[p].1.added + added) as nat;
        let nr = (rows[p].1.removed + removed) as nat;
        assert(added_column(out) =~= a.update(p, na));
        assert(removed_column(out) =~= r.update(p, nr));
        lemma_total_update(a, p, na);
        lemma_total_update(r, p, nr);
    } else {
        assert(added_column(out) =~= a.insert(p, added as nat));
        assert(removed_column(out) =~= r.insert(p, removed as nat));
        lemma_total_insert(a, p, added as nat);
        lemma_total_insert(r, p, removed as nat);
    }
}

proof fn lemma_tally_totals(per_file: bool, events: Seq<(Seq<char>, Measured)>)
    requires
        exact_added(events) <= u32::MAX,
        exact_removed(events) <= u32::MAX,
    ensures
        sorted_rows(tally(Seq::empty(), per_file, events)),
        total(added_column(tally(Seq::empty(), per_file, events))) == exact_added(events),
        total(removed_column(tally(Seq::empty(), per_file, events))) == exact_removed(events),
    decreases events.len(),
{
    let empty = Seq::<(Seq<char>, Counts)>::empty();
    assert(sorted_rows(empty));
    lemma_tally_sorted(empty, per_file, events);
    if events.len() > 0 {
        lemma_tally_totals(per_file, events.drop_last());
        let before = tally(empty, per_file, events.drop_last());
        let (author, item) = events.last();
        match delta(item) {
            Some(c) => {
                lemma_credit_totals(
                    before,
                    key_for(per_file, author, item.change.location()),
                    c.added,
                    c.removed,
                );
            },
            None => {},
        }
    }
}

/// The totals over all authors equal the totals over all files: both split
/// the same line counts. This holds of every list of counted changes whose
/// exact sums a counter can hold.
pub proof fn lemma_author_and_file_totals_agree(events: Seq<(Seq<char>, Measured)>)
    requires
        exact_added(events) <= u32::MAX,
        exact_removed(events) <= u32::MAX,
    ensures
        total(added_column(tally(Seq::empty(), false, events))) == total(
            added_column(tally(Seq::empty(), true, events)),
        ),
        total(removed_column(tally(Seq::empty(), false, events))) == total(
            removed_column(tally(Seq::empty(), true, events)),
        ),
        total(added_column(tally(Seq::empty(), false, events))) == exact_added(events),
        total(removed_column(tally(Seq::empty(), false, events))) == exact_removed(events),
{
    lemma_tally_totals(false, events);
    lemma_tally_totals(true, events);
}

/// The changes that a walk counts, each with the identity of its author:
/// those of the commits of a history, newest first, down to and including
/// `since`, whose author passes the filter.
pub open spec fn counted_events(filter: Option<Seq<char>>, history: Seq<Measurements>, since: Option<Seq<char>>) -> Seq<
    (Seq<char>, Measured),
>
    decreases history.len(),
{
    if history.len() == 0 {
        Seq::empty()
    } else {
        let commit = history[0].commit;
        let here = if passes(commit.author_name@, commit.author_email@, filter) {
            by_author(identity(commit.author_name@, commit.author_email@), history[0].items@)
        } else {
            Seq::empty()
        };
        if since == Some(commit.id@) {
            here
        } else {
            here + counted_events(filter, history.drop_first(), since)
        }
    }
}

/// The totals of a walk are the tally of the changes that it counts.
pub proof fn lemma_walk_is_tally(
    analyzer: &Analyzer,
    rows: Seq<(Seq<char>, Counts)>,
    history: Seq<Measurements>,
    since: Option<Seq<char>>,
)
    ensures
        outcome(analyzer, rows, history, since) == Some(
            tally(
                rows,
                analyzer.opts.per_file,
                counted_events(filter_text(&analyzer.opts.author), history, since),
            ),
        ),
    decreases history.len(),
{
    if history.len() > 0 {
        let filter = filter_text(&analyzer.opts.author);
        let per_file = analyzer.opts.per_file;
        let commit = history[0].commit;
        let here = if passes(commit.author_name@, commit.author_email@, filter) {
            by_author(identity(commit.author_name@, commit.author_email@), history[0].items@)
        } else {
            Seq::empty()
        };
        let next = after_commit(rows, per_file, filter, history[0]);
        assert(next == tally(rows, per_file, here));
        if since != Some(commit.id@) {
            let rest = counted_events(filter, history.drop_first(), since);
            lemma_walk_is_tally(analyzer, next, history.drop_first(), since);
            lemma_tally_append(rows, per_file, here, rest);
        }
    }
}

/// For every history, the totals per author summed over all authors equal
/// the totals per file summed over all files: both split the same line
/// counts. This holds of every walk whose exact sums a counter can hold.
pub proof fn lemma_walk_totals_agree(
    per_author: &Analyzer,
    per_file: &Analyzer,
    history: Seq<Measurements>,
    since: Option<Seq<char>>,
)
    requires
        !per_author.opts.per_file,
        per_file.opts.per_file,
        filter_text(&per_author.opts.author) == filter_text(&per_file.opts.author),
        exact_added(counted_events(filter_text(&per_author.opts.author), history, since)) <= u32::MAX,
        exact_removed(counted_events(filter_text(&per_author.opts.author), history, since)) <= u32::MAX,
    ensures
        outcome(per_author, Seq::empty(), history, since) is Some,
        outcome(per_file, Seq::empty(), history, since) is Some,
        total(added_column(outcome(per_author, Seq::empty(), history, since)->0)) == total(
            added_column(outcome(per_file, Seq::empty(), history, since)->0),
        ),
        total(removed_column(outcome(per_author, Seq::empty(), history, since)->0)) == total(
            removed_column(outcome(per_file, Seq::empty(), history, since)->0),
        ),
{
    let events = counted_events(filter_text(&per_author.opts.author), history, since);
    lemma_walk_is_tally(per_author, Seq::empty(), history, since);
    lemma_walk_is_tally(per_file, Seq::empty(), history, since);
    lemma_author_and_file_totals_agree(events);
}

} // verus!
