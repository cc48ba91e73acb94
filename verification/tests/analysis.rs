use git_productivity_analyzer::analysis::{run, AnalyzerTrait, IntoAnalyzer};
use git_productivity_analyzer::config::{Globals, LogVerbosity, RepoOptions};
use git_productivity_analyzer::days::AuthorDays;
use git_productivity_analyzer::model::{
    Change, CommitMeta, Control, EntryKind, Error, ErrorKind, ObjectId, Time,
};
use git_productivity_analyzer::ranking::Order;
use git_productivity_analyzer::{churn, commit_frequency, commit_size, frecency, ownership, streaks, time_of_day};

fn globals() -> Globals {
    Globals { since: None, until: None, json: false, log_level: LogVerbosity::Warn }
}

fn repo() -> RepoOptions {
    RepoOptions { working_dir: ".".to_string(), rev_spec: "HEAD".to_string() }
}

fn id(name: &str) -> ObjectId {
    ObjectId { name: name.to_string() }
}

const DAY: i64 = 86_400;
const NEW_YEAR_2020: i64 = 1_577_836_800;

fn commit(name: &str, author: &str, parents: &[&str], seconds: i64) -> CommitMeta {
    CommitMeta {
        id: id(name),
        parents: parents.iter().map(|p| id(p)).collect(),
        author_name: author.to_string(),
        author_email: format!("{}@example.com", author.to_lowercase()),
        author_time: Time { seconds, offset: 0 },
    }
}

/// Newest first: c2 by Bob, c1 by Alice, c0 (the root) by Alice.
fn history() -> Vec<CommitMeta> {
    vec![
        commit("c2", "Bob", &["c1"], NEW_YEAR_2020 + 2 * DAY + 13 * 3_600),
        commit("c1", "Alice", &["c0"], NEW_YEAR_2020 + DAY + 3_600),
        commit("c0", "Alice", &[], NEW_YEAR_2020),
    ]
}

fn add(path: &str, blob: &str) -> Change {
    Change::Addition { path: path.to_string(), id: id(blob), mode: EntryKind::Blob }
}

fn modify(path: &str, old: &str, new: &str) -> Change {
    Change::Modification {
        path: path.to_string(),
        previous_id: id(old),
        id: id(new),
        previous_mode: EntryKind::Blob,
        mode: EntryKind::Blob,
    }
}

#[test]
fn a_walk_down_to_since_visits_it_and_stops() {
    // c1 modifies what c0 added; walking from c1 down to c0 counts both and
    // nothing older.
    let analyzer = time_of_day::Options { repo: repo(), bins: 24, author: None }.into_analyzer(globals());
    let mut list = vec![commit("c1", "A", &["c0"], NEW_YEAR_2020 + 3_600), commit("c0", "A", &["older"], NEW_YEAR_2020)];
    list.push(commit("older", "A", &[], NEW_YEAR_2020 - 7_200));
    let hist = analyzer.analyze(&list, Some(id("c0"))).ok().unwrap();
    let mut expect = vec![0u32; 24];
    expect[0] = 1;
    expect[1] = 1;
    assert_eq!(hist.counts(), &expect);
    let all = analyzer.analyze(&list, None).ok().unwrap();
    assert_eq!(all.counts().iter().sum::<u32>(), 3);
    let unrelated = analyzer.analyze(&list, Some(id("elsewhere"))).ok().unwrap();
    assert_eq!(unrelated.counts().iter().sum::<u32>(), 3);
    let first = analyzer.analyze(&list, Some(id("c1"))).ok().unwrap();
    assert_eq!(first.counts().iter().sum::<u32>(), 1);
}

#[test]
fn time_of_day_over_a_history() {
    let analyzer = time_of_day::Options { repo: repo(), bins: 2, author: Some("alice".to_string()) }
        .into_analyzer(globals());
    let hist = analyzer.analyze(&history(), None).ok().unwrap();
    assert_eq!(hist.counts(), &vec![2, 0]);
    let empty = analyzer.analyze(&Vec::new(), None).ok().unwrap();
    assert_eq!(empty.counts(), &vec![0, 0]);
    let bad = time_of_day::Options { repo: repo(), bins: 0, author: None }.into_analyzer(globals());
    assert_eq!(
        bad.analyze(&history(), None).err(),
        Some(Error { kind: ErrorKind::InvalidConfiguration(git_productivity_analyzer::model::Setting::Bins) })
    );
}

#[test]
fn an_unreadable_commit_ends_the_run() {
    let analyzer = time_of_day::Options { repo: repo(), bins: 24, author: None }.into_analyzer(globals());
    let mut list = history();
    list[1].author_time = Time { seconds: 0, offset: 86_400 };
    let corrupt = Error { kind: ErrorKind::CorruptHistory };
    assert_eq!(analyzer.analyze(&list, None).err(), Some(corrupt));
    // the walk ends before the unreadable commit is reached
    assert!(analyzer.analyze(&list, Some(id("c2"))).is_ok());
    let streaks = streaks::Options { repo: repo(), author: None }.into_analyzer(globals());
    assert_eq!(streaks.analyze(&list, None).err(), Some(corrupt));
    let frequency = commit_frequency::Options { repo: repo(), author: None }.into_analyzer(globals());
    assert_eq!(frequency.analyze(&list, None).err(), Some(corrupt));
    // a commit that the filter leaves out is not read
    let bob = streaks::Options { repo: repo(), author: Some("bob".to_string()) }.into_analyzer(globals());
    assert!(bob.analyze(&list, None).is_ok());
}

#[test]
fn streaks_over_a_history() {
    let analyzer = streaks::Options { repo: repo(), author: None }.into_analyzer(globals());
    let streaks = analyzer.analyze(&history(), None).ok().unwrap();
    assert_eq!(streaks.as_map().get("Alice <alice@example.com>"), Some(&2));
    assert_eq!(streaks.as_map().get("Bob <bob@example.com>"), Some(&1));
    let state = run(&analyzer, AuthorDays::new(), &history(), Some(id("c1"))).ok().unwrap();
    let partial = analyzer.finish(state);
    assert_eq!(partial.as_map().get("Alice <alice@example.com>"), Some(&1));
}

#[test]
fn commit_frequency_over_a_history() {
    let analyzer = commit_frequency::Options { repo: repo(), author: None }.into_analyzer(globals());
    let totals = analyzer.analyze(&history(), None).ok().unwrap();
    let report = analyzer.finish(totals);
    assert_eq!(
        report.commits_per_day,
        vec![("2020-01-01".to_string(), 1), ("2020-01-02".to_string(), 1), ("2020-01-03".to_string(), 1)]
    );
    assert_eq!(report.commits_per_week, vec![("2020-W01".to_string(), 3)]);
    assert_eq!(
        report.active_days_per_author,
        vec![("Alice <alice@example.com>".to_string(), 2), ("Bob <bob@example.com>".to_string(), 1)]
    );
}

#[test]
fn churn_over_a_history() {
    let analyzer = churn::Options { repo: repo(), per_file: true, author: None }.into_analyzer(globals());
    let list: Vec<churn::Measurements> = history()
        .into_iter()
        .map(|c| churn::Measurements {
            items: vec![churn::Measured {
                change: add(&format!("{}.txt", c.id.name), "b"),
                content: Some(b"one\ntwo\n".to_vec()),
                line_diff: None,
            }],
            commit: c,
        })
        .collect();
    let summary = run(&analyzer, churn::Summary::new(), &list, Some(id("c1"))).ok().unwrap();
    let summary = analyzer.finish(summary);
    assert_eq!(summary.totals.keys, vec!["c1.txt".to_string(), "c2.txt".to_string()]);
    assert_eq!(summary.totals.get("c2.txt"), Some(&churn::Counts { added: 2, removed: 0 }));
}

#[test]
fn ownership_over_a_history() {
    let analyzer = ownership::Options { repo: repo(), path: None, author: None, depth: 1 }.into_analyzer(globals());
    let mut list: Vec<ownership::Touched> = history()
        .into_iter()
        .map(|c| ownership::Touched { changes: vec![add("src/a.rs", "b"), add("README", "r")], commit: c })
        .collect();
    list.insert(1, ownership::Touched { commit: commit("m", "Bob", &["c1", "x"], 0), changes: vec![add("src/m.rs", "b")] });
    let totals = run(&analyzer, ownership::Totals::new(), &list, None).ok().unwrap();
    let totals = analyzer.finish(totals);
    assert_eq!(totals.len(), 2);
    let src = totals.shares(1);
    assert_eq!(src.dir, "src");
    assert_eq!(
        src.authors,
        vec![("Alice <alice@example.com>".to_string(), 2), ("Bob <bob@example.com>".to_string(), 1)]
    );
}

#[test]
fn commit_size_over_a_history() {
    let analyzer =
        commit_size::Options { repo: repo(), percentiles: Some(vec![100_000]) }.into_analyzer(globals());
    let list: Vec<commit_size::Measured> = history()
        .into_iter()
        .enumerate()
        .map(|(i, c)| commit_size::Measured {
            commit: c,
            stats: commit_size::DiffStats { files_changed: i as u64 + 1, lines_added: 10 * i as u64, lines_removed: 1 },
        })
        .collect();
    let sizes = run(&analyzer, analyzer.start().ok().unwrap(), &list, None).ok().unwrap();
    assert_eq!(sizes.lines, vec![1, 11, 21]);
    assert_eq!(sizes.files, vec![1, 2, 3]);
    let summary = analyzer.finish(sizes);
    assert_eq!(summary.max_lines, 21);
    assert_eq!(summary.min_files, 1);
    assert_eq!(summary.line_percentiles, Some(vec![(100_000, 21)]));
    let bad = commit_size::Options { repo: repo(), percentiles: Some(vec![100_001]) }.into_analyzer(globals());
    assert!(bad.start().is_err());
}

fn frecency_options(max_commits: Option<usize>) -> frecency::Options {
    frecency::Options {
        repo: repo(),
        paths: None,
        max_commits,
        order: Order::Descending,
        path_only: false,
        now: Some(NEW_YEAR_2020 + 3 * DAY),
        age_exp: frecency::DEFAULT_AGE_EXPONENT,
        size_ref: frecency::DEFAULT_SIZE_PENALTY_REF,
    }
}

fn revisions() -> Vec<frecency::Revision> {
    let sight = |change: Change, size: u64| frecency::Sighting { change, size: Some(size) };
    vec![
        frecency::Revision {
            commit: commit("c3", "T", &["c2", "side"], NEW_YEAR_2020 + 3 * DAY),
            seconds: NEW_YEAR_2020 + 3 * DAY,
            changes: vec![sight(add("file2.txt", "b2"), 2)],
        },
        frecency::Revision {
            commit: commit("c2", "T", &["c1"], NEW_YEAR_2020 + 2 * DAY),
            seconds: NEW_YEAR_2020 + 2 * DAY,
            changes: vec![sight(add("file1.txt", "b1"), 2), sight(modify("file0.txt", "b0", "b1"), 999)],
        },
        frecency::Revision {
            commit: commit("c1", "T", &["c0"], NEW_YEAR_2020 + DAY),
            seconds: NEW_YEAR_2020 + DAY,
            changes: vec![sight(modify("file0.txt", "a0", "b0"), 7)],
        },
        frecency::Revision {
            commit: commit("c0", "T", &[], NEW_YEAR_2020),
            seconds: NEW_YEAR_2020,
            changes: vec![sight(add("file0.txt", "a0"), 5)],
        },
    ]
}

#[test]
fn frecency_over_a_history() {
    let analyzer = frecency_options(None).into_analyzer(globals());
    let session = frecency::Session::new(analyzer.reference_time(0));
    let session = run(&analyzer, session, &revisions(), None).ok().unwrap();
    assert_eq!(session.tally.considered, 3);
    let touches = analyzer.finish(session);
    // the merge c3 contributes nothing
    assert_eq!(touches.keys, vec!["file0.txt".to_string(), "file1.txt".to_string()]);
    let touch = |age_days, size| frecency::Touch { age_days, size };
    // the size of blob b1 is the one seen first for it
    assert_eq!(touches.values, vec![vec![touch(1, 2), touch(2, 7), touch(3, 5)], vec![touch(1, 2)]]);
}

#[test]
fn frecency_cap_ends_the_walk() {
    let analyzer = frecency_options(Some(2)).into_analyzer(globals());
    let session = run(&analyzer, frecency::Session::new(NEW_YEAR_2020 + 3 * DAY), &revisions(), None).ok().unwrap();
    assert_eq!(session.tally.considered, 2);
    let touches = analyzer.finish(session);
    let ages: Vec<u64> = touches.values[0].iter().map(|t| t.age_days).collect();
    assert_eq!(ages, vec![1, 2]);
    let mut session = frecency::Session::new(0);
    let none = frecency_options(Some(0)).into_analyzer(globals());
    assert_eq!(none.update(&mut session, &revisions()[1]).ok(), Some(Control::Stop));
    assert_eq!(session.tally.touches.len(), 0);
}
