//! Who touched the files of each directory, and how often.

use vstd::prelude::*;
use vstd::string::StringExecFns;
use crate::analysis::{AnalyzerTrait, IntoAnalyzer};
use crate::changes::is_merge;
use crate::config::{Globals, RepoOptions};
use crate::model::{Change, CommitId, CommitMeta, Control, Error, Setting};
use crate::pattern::{compiles, is_pattern, path_allowed, path_passes};
use crate::ranking::{rank, ranked, views, Order, Scored};
use crate::sums::{capped_add, capped_sum, total};
use crate::table::{get, put, row_keys, TextMap};
use crate::text::{author_key, author_matches, chars_of, filter_text, identity, passes, text_of};

verus! {

/// What an ownership analysis is asked to do.
#[derive(Clone, Debug)]
pub struct Options {
    pub repo: RepoOptions,
    /// Only count paths that match this pattern.
    pub path: Option<String>,
    /// Only count commits whose author matches this pattern.
    pub author: Option<String>,
    /// The number of leading directories that name a bucket.
    pub depth: usize,
}

/// An ownership analysis.
#[derive(Clone, Debug)]
pub struct Analyzer {
    pub opts: Options,
    pub globals: Globals,
}

/// A commit with its changes against its parent's tree.
pub struct Touched {
    pub commit: CommitMeta,
    pub changes: Vec<Change>,
}

/// For each bucket, in ascending order, the touches of each author.
pub struct Totals {
    pub by_dir: TextMap<TextMap<u32>>,
}

/// The touches of one bucket: the authors with their touches, and the sum.
pub struct Shares {
    pub dir: String,
    pub total: u128,
    pub authors: Vec<(String, u32)>,
}

impl View for Totals {
    type V = Seq<(Seq<char>, Seq<(Seq<char>, u32)>)>;

    open spec fn view(&self) -> Seq<(Seq<char>, Seq<(Seq<char>, u32)>)> {
        Seq::new(self.by_dir.keys@.len(), |i: int| (self.by_dir.keys@[i]@, self.by_dir.values@[i]@))
    }
}

/// The name of the bucket that holds what lies in no directory deep enough.
pub open spec fn root() -> Seq<char> {
    seq!['.']
}

/// The position of a slash in `path`, at or after `from`: the one that has
/// `remaining - 1` slashes between `from` and itself. -1 if there is none.
pub open spec fn find_slash(path: Seq<char>, from: int, remaining: nat) -> int
    decreases path.len() - from,
{
    if from < 0 || from >= path.len() {
        -1
    } else if path[from] == '/' {
        if remaining <= 1 {
            from
        } else {
            find_slash(path, from + 1, (remaining - 1) as nat)
        }
    } else {
        find_slash(path, from + 1, remaining)
    }
}

/// The bucket of a path: its first `depth` directories. A path with fewer
/// directories, and every path when `depth` is 0, falls in the root bucket.
pub open spec fn bucket_of(path: Seq<char>, depth: nat) -> Seq<char> {
    if depth == 0 {
        root()
    } else {
        let end = find_slash(path, 0, depth);
        if end < 0 {
            root()
        } else {
            path.take(end)
        }
    }
}

/// The slashes of `path` before position `i`.
pub open spec fn slashes_before(path: Seq<char>, i: int) -> nat
    decreases i,
{
    if i <= 0 {
        0
    } else {
        slashes_before(path, i - 1) + if path[i - 1] == '/' {
            1nat
        } else {
            0nat
        }
    }
}

proof fn lemma_find_slash(path: Seq<char>, from: int, remaining: nat)
    requires
        0 <= from <= path.len(),
        remaining >= 1,
    ensures
        find_slash(path, from, remaining) < 0 ==> slashes_before(path, path.len() as int)
            < slashes_before(path, from) + remaining,
        find_slash(path, from, remaining) >= 0 ==> {
            let p = find_slash(path, from, remaining);
            &&& from <= p < path.len()
            &&& path[p] == '/'
            &&& slashes_before(path, p) == slashes_before(path, from) + remaining - 1
        },
    decreases path.len() - from,
{
    if from < path.len() {
        if path[from] == '/' {
            if remaining > 1 {
                lemma_find_slash(path, from + 1, (remaining - 1) as nat);
            } else {
                lemma_slashes_monotone(path, from + 1, path.len() as int);
            }
        } else {
            lemma_find_slash(path, from + 1, remaining);
        }
    }
}

proof fn lemma_slashes_monotone(path: Seq<char>, i: int, j: int)
    requires
        0 <= i <= j,
    ensures
        slashes_before(path, i) <= slashes_before(path, j),
    decreases j - i,
{
    if i < j {
        lemma_slashes_monotone(path, i, j - 1);
    }
}

/// With depth 0 every path falls in the root bucket, and so does, at any
/// depth, a path that lies in no directory.
pub proof fn lemma_root_bucket(path: Seq<char>, depth: nat)
    requires
        depth == 0 || forall|i: int| 0 <= i < path.len() ==> path[i] != '/',
    ensures
        bucket_of(path, depth) == root(),
{
    if depth > 0 {
        lemma_no_slash(path, 0, depth);
    }
}

/// With depth 1 a path falls in the bucket of its first directory.
pub proof fn lemma_first_directory(dir: Seq<char>, rest: Seq<char>)
    requires
        forall|i: int| 0 <= i < dir.len() ==> dir[i] != '/',
    ensures
        bucket_of(dir + seq!['/'] + rest, 1) == dir,
{
    let path = dir + seq!['/'] + rest;
    lemma_first_slash(path, dir.len() as int, 0);
    assert(path.take(dir.len() as int) =~= dir);
}

proof fn lemma_first_slash(path: Seq<char>, at: int, from: int)
    requires
        0 <= from <= at < path.len(),
        path[at] == '/',
        forall|i: int| 0 <= i < at ==> path[i] != '/',
    ensures
        find_slash(path, from, 1) == at,
    decreases at - from,
{
    if from < at {
        lemma_first_slash(path, at, from + 1);
    }
}

proof fn lemma_no_slash(path: Seq<char>, from: int, remaining: nat)
    requires
        0 <= from,
        forall|i: int| 0 <= i < path.len() ==> path[i] != '/',
    ensures
        find_slash(path, from, remaining) == -1,
    decreases path.len() - from,
{
    if from < path.len() {
        lemma_no_slash(path, from + 1, remaining);
    }
}

/// A path with at least `depth` slashes falls in the bucket that ends before
/// its `depth`-th slash; any other path falls in the root bucket.
pub proof fn lemma_bucket_is_prefix(path: Seq<char>, depth: nat)
    requires
        depth >= 1,
    ensures
        slashes_before(path, path.len() as int) < depth ==> bucket_of(path, depth) == root(),
        slashes_before(path, path.len() as int) >= depth ==> {
            let p = find_slash(path, 0, depth);
            &&& 0 <= p < path.len()
            &&& path[p] == '/'
            &&& slashes_before(path, p) == depth - 1
            &&& bucket_of(path, depth) == path.take(p)
        },
{
    lemma_find_slash(path, 0, depth);
    let p = find_slash(path, 0, depth);
    if p >= 0 {
        lemma_slashes_monotone(path, p + 1, path.len() as int);
    }
}

/// Names the bucket of a path.
pub fn bucket(path: &str, depth: usize) -> (dir: String)
    ensures
        dir@ == bucket_of(path@, depth as nat),
{
    proof {
        reveal_strlit(".");
    }
    if depth == 0 {
        assert("."@ =~= root());
        return String::from_str(".");
    }
    let chars = chars_of(path);
    let mut remaining = depth;
    let mut i: usize = 0;
    while i < chars.len()
        invariant
            chars@ == path@,
            i <= chars@.len(),
            depth >= 1,
            remaining >= 1,
            find_slash(path@, 0, depth as nat) == find_slash(path@, i as int, remaining as nat),
        decreases chars@.len() - i,
    {
        if chars[i] == '/' {
            if remaining == 1 {
                assert(path@.subrange(0, i as int) =~= path@.take(i as int));
                return text_of(&chars, 0, i);
            }
            remaining = remaining - 1;
        }
        i += 1;
    }
    assert("."@ =~= root());
    String::from_str(".")
}

/// What the rows hold for an author; nothing counts as zero.
pub open spec fn touches_of(rows: Seq<(Seq<char>, u32)>, author: Seq<char>) -> u32 {
    match get(rows, author) {
        Some(n) => n,
        None => 0,
    }
}

/// The authors of a bucket; none for an unknown bucket.
pub open spec fn authors_of(rows: Seq<(Seq<char>, Seq<(Seq<char>, u32)>)>, dir: Seq<char>) -> Seq<
    (Seq<char>, u32),
> {
    match get(rows, dir) {
        Some(authors) => authors,
        None => Seq::empty(),
    }
}

/// The rows after one more touch by `author` in bucket `dir`.
pub open spec fn touched(rows: Seq<(Seq<char>, Seq<(Seq<char>, u32)>)>, dir: Seq<char>, author: Seq<char>) -> Seq<
    (Seq<char>, Seq<(Seq<char>, u32)>),
> {
    let authors = authors_of(rows, dir);
    put(rows, dir, put(authors, author, capped_sum(touches_of(authors, author), 1)))
}

/// Whether a change counts as a touch: it touches a file whose path passes
/// the pattern.
pub open spec fn counts(change: Change, pattern: Option<Seq<char>>) -> bool {
    change.kind().blob() && path_passes(pattern, change.location())
}

/// The rows after the changes of one commit by `author` were counted.
pub open spec fn tally(
    rows: Seq<(Seq<char>, Seq<(Seq<char>, u32)>)>,
    changes: Seq<Change>,
    pattern: Option<Seq<char>>,
    depth: nat,
    author: Seq<char>,
) -> Seq<(Seq<char>, Seq<(Seq<char>, u32)>)>
    decreases changes.len(),
{
    if changes.len() == 0 {
        rows
    } else {
        let before = tally(rows, changes.drop_last(), pattern, depth, author);
        if counts(changes.last(), pattern) {
            touched(before, bucket_of(changes.last().location(), depth), author)
        } else {
            before
        }
    }
}

impl Totals {
    /// Buckets ascending, and within each bucket the authors ascending.
    pub open spec fn wf(&self) -> bool {
        &&& self.by_dir.wf()
        &&& forall|i: int| 0 <= i < self.by_dir.values@.len() ==> (#[trigger] self.by_dir.values@[i]).wf()
    }

    /// No bucket yet.
    pub fn new() -> (totals: Totals)
        ensures
            totals.wf(),
            totals@.len() == 0,
    {
        Totals { by_dir: TextMap::new() }
    }

    /// Counts one touch by `author` in bucket `dir`.
    pub fn touch(&mut self, dir: String, author: String)
        requires
            old(self).wf(),
        ensures
            final(self).wf(),
            final(self)@ == touched(old(self)@, dir@, author@),
    {
        let ghost before = self@;
        assert(row_keys(before) =~= self.by_dir.key_seq());
        let (pos, found) = self.by_dir.locate(dir.as_str());
        let mut authors: TextMap<u32> = TextMap::new();
        if found {
            std::mem::swap(&mut authors, &mut self.by_dir.values[pos]);
        }
        let ghost had = authors@;
        assert(had == authors_of(before, dir@)) by {
            if !found {
                assert(had =~= Seq::empty());
            }
        }
        let next = match authors.get(author.as_str()) {
            Some(n) => capped_add(*n, 1),
            None => 1,
        };
        authors.put(author, next);
        if found {
            let ghost keys = self.by_dir.key_seq();
            self.by_dir.set_value(pos, authors);
            assert(self.by_dir.key_seq() =~= keys);
            assert(self@ =~= before.update(pos as int, (dir@, authors@)));
        } else {
            self.by_dir.insert_at(pos, dir, authors);
            assert(self@ =~= before.insert(pos as int, (dir@, authors@)));
        }
    }

    /// The number of buckets.
    pub fn len(&self) -> (n: usize)
        requires
            self.wf(),
        ensures
            n == self@.len(),
    {
        self.by_dir.len()
    }

    /// The touches of bucket `i`: each author's, and all of them together.
    pub fn shares(&self, i: usize) -> (shares: Shares)
        requires
            self.wf(),
            i < self@.len(),
        ensures
            shares.dir@ == self@[i as int].0,
            shares.authors@.len() == self@[i as int].1.len(),
            forall|j: int|
                0 <= j < shares.authors@.len() ==> (#[trigger] shares.authors@[j]).0@ == self@[i as int].1[j].0
                    && shares.authors@[j].1 == self@[i as int].1[j].1,
            shares.total == total(touch_column(self@[i as int].1)),
    {
        let row = self.by_dir.value_at(i);
        let ghost rows = self@[i as int].1;
        assert(rows == row@);
        let mut authors: Vec<(String, u32)> = Vec::new();
        let mut sum: u128 = 0;
        let mut j: usize = 0;
        let n = row.len();
        while j < n
            invariant
                row.wf(),
                rows == row@,
                n == rows.len(),
                j <= n,
                authors@.len() == j,
                forall|k: int|
                    0 <= k < j ==> (#[trigger] authors@[k]).0@ == rows[k].0 && authors@[k].1 == rows[k].1,
                sum == total(touch_column(rows.take(j as int))),
                sum <= j * 0xffff_ffff,
            decreases n - j,
        {
            let touches = *row.value_at(j);
            proof {
                let now = touch_column(rows.take(j + 1));
                assert(now.drop_last() =~= touch_column(rows.take(j as int)));
                assert(now.last() == touches as nat);
            }
            authors.push((row.key_at(j).clone(), touches));
            sum = sum + touches as u128;
            j += 1;
        }
        proof {
            assert(rows.take(j as int) =~= rows);
        }
        Shares { dir: self.by_dir.key_at(i).clone(), total: sum, authors }
    }
}

/// The authors of a bucket as rows to rank: each with the number of touches
/// as score.
pub open spec fn as_scores(authors: Seq<(String, u32)>) -> Seq<(Seq<char>, u64)> {
    Seq::new(authors.len(), |i: int| (authors[i].0@, authors[i].1 as u64))
}

impl Shares {
    /// The authors in the order in which they are shown: most touches first,
    /// authors with equally many by identity. The score of a row is the
    /// number of touches.
    pub fn ranked_authors(&self) -> (out: Vec<Scored>)
        ensures
            ranked(views(out@), Order::Descending),
            views(out@).to_multiset() == as_scores(self.authors@).to_multiset(),
            out@.len() == self.authors@.len(),
    {
        let mut rows: Vec<Scored> = Vec::new();
        let mut i: usize = 0;
        while i < self.authors.len()
            invariant
                i <= self.authors@.len(),
                rows@.len() == i,
                views(rows@) == as_scores(self.authors@.take(i as int)),
            decreases self.authors@.len() - i,
        {
            let ghost before = rows@;
            let name = self.authors[i].0.clone();
            let score = self.authors[i].1 as u64;
            rows.push(Scored { path: name, score });
            i += 1;
            proof {
                let now = as_scores(self.authors@.take(i as int));
                assert(views(rows@).len() == now.len());
                assert forall|j: int| 0 <= j < now.len() implies views(rows@)[j] == now[j] by {
                    if j < i - 1 {
                        assert(rows@[j] == before[j]);
                        assert(views(before)[j] == as_scores(self.authors@.take(i - 1))[j]);
                    }
                }
                assert(views(rows@) =~= now);
            }
        }
        proof {
            assert(self.authors@.take(i as int) =~= self.authors@);
        }
        rank(rows, Order::Descending)
    }
}

/// The touches of each author, in row order.
pub open spec fn touch_column(rows: Seq<(Seq<char>, u32)>) -> Seq<nat> {
    Seq::new(rows.len(), |i: int| rows[i].1 as nat)
}

/// The pattern of the options as a value.
pub open spec fn pattern_text(pattern: &Option<String>) -> Option<Seq<char>> {
    match pattern {
        Some(p) => Some(p@),
        None => None,
    }
}

impl Analyzer {
    /// An analysis with the given options.
    pub fn new(opts: Options, globals: Globals) -> (analyzer: Analyzer)
        ensures
            analyzer.opts == opts,
            analyzer.globals == globals,
    {
        Analyzer { opts, globals }
    }

    /// Checks the options before a walk begins: a path pattern must compile.
    pub fn validate(&self) -> (checked: Result<(), Error>)
        ensures
            (self.opts.path matches Some(p) ==> is_pattern(p@)) ==> checked is Ok,
            (self.opts.path matches Some(p) && !is_pattern(p@)) ==> checked == Err::<(), Error>(
                Error::invalid(Setting::PathPattern),
            ),
    {
        match &self.opts.path {
            Some(p) => {
                if compiles(p.as_str()) {
                    Ok(())
                } else {
                    Err(Error::invalid_configuration(Setting::PathPattern))
                }
            },
            None => Ok(()),
        }
    }

    /// Counts the changes of a commit for `author`: each change of a file
    /// whose path passes the pattern is one touch in the bucket of the path.
    pub fn process_changes(&self, changes: &Vec<Change>, author: &str, totals: &mut Totals)
        requires
            old(totals).wf(),
        ensures
            final(totals).wf(),
            final(totals)@ == tally(
                old(totals)@,
                changes@,
                pattern_text(&self.opts.path),
                self.opts.depth as nat,
                author@,
            ),
    {
        let ghost start = totals@;
        let mut i: usize = 0;
        while i < changes.len()
            invariant
                i <= changes@.len(),
                totals.wf(),
                totals@ == tally(
                    start,
                    changes@.take(i as int),
                    pattern_text(&self.opts.path),
                    self.opts.depth as nat,
                    author@,
                ),
            decreases changes@.len() - i,
        {
            proof {
                assert(changes@.take(i + 1).drop_last() =~= changes@.take(i as int));
                assert(changes@.take(i + 1).last() == changes@[i as int]);
            }
            let change = &changes[i];
            if change.entry_kind().is_blob() && path_allowed(&self.opts.path, change.path().as_str()) {
                let dir = bucket(change.path().as_str(), self.opts.depth);
                totals.touch(dir, author.to_owned());
            }
            i += 1;
        }
        proof {
            assert(changes@.take(i as int) =~= changes@);
        }
    }

    /// Counts a commit. A merge contributes nothing, nor does a commit
    /// whose author does not pass the filter.
    pub fn process_commit(&self, commit: &CommitMeta, changes: &Vec<Change>, totals: &mut Totals)
        requires
            old(totals).wf(),
        ensures
            final(totals).wf(),
            final(totals)@ == (if commit.parents@.len() < 2 && passes(
                commit.author_name@,
                commit.author_email@,
                filter_text(&self.opts.author),
            ) {
                tally(
                    old(totals)@,
                    changes@,
                    pattern_text(&self.opts.path),
                    self.opts.depth as nat,
                    identity(commit.author_name@, commit.author_email@),
                )
            } else {
                old(totals)@
            }),
    {
        if is_merge(commit) {
            return ;
        }
        if !author_matches(commit.author_name.as_str(), commit.author_email.as_str(), &self.opts.author) {
            return ;
        }
        let author = author_key(commit.author_name.as_str(), commit.author_email.as_str());
        self.process_changes(changes, author.as_str(), totals);
    }
}

/// The rows after a commit: its changes counted for its author, unless it
/// is a merge or its author does not pass the filter.
pub open spec fn after_commit(
    rows: Seq<(Seq<char>, Seq<(Seq<char>, u32)>)>,
    pattern: Option<Seq<char>>,
    depth: nat,
    filter: Option<Seq<char>>,
    commit: Touched,
) -> Seq<(Seq<char>, Seq<(Seq<char>, u32)>)> {
    if commit.commit.parents@.len() < 2 && passes(
        commit.commit.author_name@,
        commit.commit.author_email@,
        filter,
    ) {
        tally(
            rows,
            commit.changes@,
            pattern,
            depth,
            identity(commit.commit.author_name@, commit.commit.author_email@),
        )
    } else {
        rows
    }
}

impl AnalyzerTrait for Analyzer {
    type State = Totals;

    type Commit = Touched;

    type Model = Seq<(Seq<char>, Seq<(Seq<char>, u32)>)>;

    type Output = Totals;

    open spec fn model(state: Totals) -> Seq<(Seq<char>, Seq<(Seq<char>, u32)>)> {
        state@
    }

    open spec fn sound(&self, state: Totals) -> bool {
        state.wf()
    }

    open spec fn name(commit: Touched) -> Seq<char> {
        commit.commit.id@
    }

    open spec fn step(&self, model: Seq<(Seq<char>, Seq<(Seq<char>, u32)>)>, commit: Touched) -> Option<
        (Seq<(Seq<char>, Seq<(Seq<char>, u32)>)>, bool),
    > {
        Some(
            (
                after_commit(
                    model,
                    pattern_text(&self.opts.path),
                    self.opts.depth as nat,
                    filter_text(&self.opts.author),
                    commit,
                ),
                false,
            ),
        )
    }

    open spec fn reports(&self, model: Seq<(Seq<char>, Seq<(Seq<char>, u32)>)>, output: Totals) -> bool {
        output.wf() && output@ == model
    }

    fn id(commit: &Touched) -> (id: &CommitId) {
        &commit.commit.id
    }

    fn update(&self, state: &mut Totals, commit: &Touched) -> (next: Result<Control, Error>) {
        self.process_commit(&commit.commit, &commit.changes, state);
        Ok(Control::Continue)
    }

    fn finish(&self, state: Totals) -> (output: Totals) {
        state
    }
}

impl IntoAnalyzer for Options {
    type Analyzer = Analyzer;

    open spec fn makes(self, globals: Globals, analyzer: Analyzer) -> bool {
        analyzer.opts == self && analyzer.globals == globals
    }

    fn into_analyzer(self, globals: Globals) -> (analyzer: Analyzer) {
        Analyzer::new(self, globals)
    }
}

} // verus!
