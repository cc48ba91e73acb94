use git_productivity_analyzer::churn::{Analyzer, Counts, LineDiff, Measured, Options, Summary, Want};
use git_productivity_analyzer::config::{Globals, LogVerbosity, RepoOptions};
use git_productivity_analyzer::model::{Change, CommitMeta, EntryKind, ObjectId, Time};

fn globals() -> Globals {
    Globals { since: None, until: None, json: false, log_level: LogVerbosity::Warn }
}

fn analyzer(per_file: bool, author: Option<&str>) -> Analyzer {
    Analyzer::new(
        Options {
            repo: RepoOptions { working_dir: ".".to_string(), rev_spec: "HEAD".to_string() },
            per_file,
            author: author.map(|a| a.to_string()),
        },
        globals(),
    )
}

fn id(name: &str) -> ObjectId {
    ObjectId { name: name.to_string() }
}

fn commit(name: &str, email: &str) -> CommitMeta {
    CommitMeta {
        id: id("c"),
        parents: Vec::new(),
        author_name: name.to_string(),
        author_email: email.to_string(),
        author_time: Time { seconds: 0, offset: 0 },
    }
}

fn added(path: &str, content: &[u8]) -> Measured {
    Measured {
        change: Change::Addition { path: path.to_string(), id: id("b"), mode: EntryKind::Blob },
        content: Some(content.to_vec()),
        line_diff: None,
    }
}

fn deleted(path: &str, content: &[u8]) -> Measured {
    Measured {
        change: Change::Deletion { path: path.to_string(), id: id("b"), mode: EntryKind::Blob },
        content: Some(content.to_vec()),
        line_diff: None,
    }
}

fn modified(path: &str, insertions: u32, removals: u32) -> Measured {
    Measured {
        change: Change::Modification {
            path: path.to_string(),
            previous_id: id("a"),
            id: id("b"),
            previous_mode: EntryKind::Blob,
            mode: EntryKind::Blob,
        },
        content: None,
        line_diff: Some(LineDiff { insertions, removals }),
    }
}

fn history() -> Vec<(CommitMeta, Vec<Measured>)> {
    vec![
        (commit("Alice", "a@example.com"), vec![added("a.txt", b"1\n2\n3\n"), added("b.txt", b"x")]),
        (commit("Bob", "b@example.com"), vec![modified("a.txt", 2, 1), deleted("b.txt", b"x")]),
        (commit("Alice", "a@example.com"), vec![modified("a.txt", 5, 0)]),
    ]
}

fn run(analyzer: &Analyzer) -> Summary {
    let mut summary = Summary::new();
    for (commit, items) in history() {
        analyzer.process_commit(&commit, &items, &mut summary);
    }
    summary
}

fn rows(summary: &Summary) -> Vec<(String, u32, u32)> {
    (0..summary.totals.len())
        .map(|i| {
            let c = summary.totals.value_at(i);
            (summary.totals.key_at(i).clone(), c.added, c.removed)
        })
        .collect()
}

#[test]
fn churn_by_author() {
    let summary = run(&analyzer(false, None));
    assert_eq!(
        rows(&summary),
        vec![
            ("Alice <a@example.com>".to_string(), 9, 0),
            ("Bob <b@example.com>".to_string(), 2, 2),
        ]
    );
}

#[test]
fn churn_per_file() {
    let summary = run(&analyzer(true, None));
    assert_eq!(rows(&summary), vec![("a.txt".to_string(), 10, 1), ("b.txt".to_string(), 1, 1)]);
}

#[test]
fn churn_totals_agree_between_modes() {
    let by_author = rows(&run(&analyzer(false, None)));
    let by_file = rows(&run(&analyzer(true, None)));
    let sum = |rows: &Vec<(String, u32, u32)>| {
        rows.iter().fold((0u64, 0u64), |acc, r| (acc.0 + r.1 as u64, acc.1 + r.2 as u64))
    };
    assert_eq!(sum(&by_author), sum(&by_file));
    assert_eq!(sum(&by_author), (11, 2));
}

#[test]
fn author_filter_case_insensitive() {
    let summary = run(&analyzer(false, Some("ALICE")));
    assert_eq!(rows(&summary), vec![("Alice <a@example.com>".to_string(), 9, 0)]);
    let none = run(&analyzer(false, Some("nonexistent")));
    assert_eq!(none.totals.len(), 0);
}

#[test]
fn churn_wants_follow_the_kind_of_change() {
    assert_eq!(Analyzer::wants(&added("a", b"").change), Want::NewContent);
    assert_eq!(Analyzer::wants(&deleted("a", b"").change), Want::OldContent);
    assert_eq!(Analyzer::wants(&modified("a", 0, 0).change), Want::LineDiff);
    let rewrite = Change::Rewrite {
        source_path: "a".to_string(),
        path: "b".to_string(),
        source_id: id("a"),
        id: id("a"),
        mode: EntryKind::Blob,
    };
    assert_eq!(Analyzer::wants(&rewrite), Want::Nothing);
    let tree = Change::Addition { path: "dir".to_string(), id: id("t"), mode: EntryKind::Tree };
    assert_eq!(Analyzer::wants(&tree), Want::Nothing);
    let became_file = Change::Modification {
        path: "x".to_string(),
        previous_id: id("a"),
        id: id("b"),
        previous_mode: EntryKind::Submodule,
        mode: EntryKind::BlobExecutable,
    };
    assert_eq!(Analyzer::wants(&became_file), Want::NewContent);
    let became_link = Change::Modification {
        path: "x".to_string(),
        previous_id: id("a"),
        id: id("b"),
        previous_mode: EntryKind::Blob,
        mode: EntryKind::Link,
    };
    assert_eq!(Analyzer::wants(&became_link), Want::OldContent);
}

#[test]
fn churn_ignores_renames_and_missing_statistics() {
    let a = analyzer(true, None);
    let mut summary = Summary::new();
    let rewrite = Measured {
        change: Change::Rewrite {
            source_path: "a".to_string(),
            path: "b".to_string(),
            source_id: id("a"),
            id: id("a"),
            mode: EntryKind::Blob,
        },
        content: Some(b"1\n2\n".to_vec()),
        line_diff: Some(LineDiff { insertions: 3, removals: 3 }),
    };
    let mut no_stats = modified("c", 1, 1);
    no_stats.line_diff = None;
    let mut unreadable = added("d", b"");
    unreadable.content = None;
    a.process_commit(&commit("A", "a@x"), &vec![rewrite, no_stats, unreadable], &mut summary);
    assert_eq!(rows(&summary), vec![("d".to_string(), 0, 0)]);
}

#[test]
fn churn_counters_stay_at_their_maximum() {
    let mut totals = git_productivity_analyzer::table::TextMap::new();
    Analyzer::add_total(&mut totals, "k".to_string(), u32::MAX - 1, 5);
    Analyzer::add_total(&mut totals, "k".to_string(), 7, 5);
    assert_eq!(totals.get("k"), Some(&Counts { added: u32::MAX, removed: 10 }));
}

#[test]
fn churn_counts_lines_of_content() {
    assert_eq!(Analyzer::count_lines(&Some(b"a\nb".to_vec())), 2);
    assert_eq!(Analyzer::count_lines(&None), 0);
    let a = analyzer(false, None);
    assert_eq!(a.key("author", "path"), "author");
    assert_eq!(analyzer(true, None).key("author", "path"), "path");
}
