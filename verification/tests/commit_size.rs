use git_productivity_analyzer::commit_size::{Analyzer, DiffStats, Mean, Options};
use git_productivity_analyzer::config::{Globals, LogVerbosity, RepoOptions};
use git_productivity_analyzer::model::{Error, ErrorKind, Setting};
use git_productivity_analyzer::stats::Median;

fn options(percentiles: Option<Vec<i64>>) -> Options {
    Options { repo: RepoOptions { working_dir: ".".to_string(), rev_spec: "HEAD".to_string() }, percentiles }
}

fn analyzer(percentiles: Option<Vec<i64>>) -> Analyzer {
    Analyzer::new(
        options(percentiles),
        Globals { since: None, until: None, json: false, log_level: LogVerbosity::Warn },
    )
}

#[test]
fn percentiles_outside_0_to_100_are_refused() {
    let bad = Error { kind: ErrorKind::InvalidConfiguration(Setting::Percentile) };
    assert!(options(None).validate().is_ok());
    assert!(options(Some(vec![])).validate().is_ok());
    assert!(options(Some(vec![0, 50_000, 100_000])).validate().is_ok());
    assert_eq!(options(Some(vec![50_000, 100_001])).validate().err(), Some(bad));
    assert_eq!(options(Some(vec![-1])).validate().err(), Some(bad));
}

#[test]
fn commit_size_empty_repository() {
    let summary = analyzer(Some(vec![50_000])).build_summary(Vec::new(), Vec::new());
    assert_eq!(summary.min_files, 0);
    assert_eq!(summary.max_files, 0);
    assert_eq!(summary.avg_files, Mean { sum: 0, count: 0 });
    assert_eq!(summary.median_files, Median { lower: 0, upper: 0 });
    assert_eq!(summary.min_lines, 0);
    assert_eq!(summary.max_lines, 0);
    assert_eq!(summary.median_lines, Median { lower: 0, upper: 0 });
    assert!(summary.line_percentiles.is_none());
}

#[test]
fn commit_size_summary() {
    let mut lines = Vec::new();
    let mut files = Vec::new();
    for (f, a, r) in [(1, 10, 0), (3, 5, 5), (2, 40, 0), (1, 0, 20)] {
        Analyzer::process_commit(
            DiffStats { files_changed: f, lines_added: a, lines_removed: r },
            &mut lines,
            &mut files,
        );
    }
    assert_eq!(lines, vec![10, 10, 40, 20]);
    assert_eq!(files, vec![1, 3, 2, 1]);
    let summary = analyzer(Some(vec![50_000, 100_000])).build_summary(lines, files);
    assert_eq!(summary.min_files, 1);
    assert_eq!(summary.max_files, 3);
    assert_eq!(summary.avg_files, Mean { sum: 7, count: 4 });
    assert_eq!(summary.median_files, Median { lower: 1, upper: 2 });
    assert_eq!(summary.min_lines, 10);
    assert_eq!(summary.max_lines, 40);
    assert_eq!(summary.avg_lines, Mean { sum: 80, count: 4 });
    assert_eq!(summary.median_lines, Median { lower: 10, upper: 20 });
    assert_eq!(summary.line_percentiles, Some(vec![(50_000, 15), (100_000, 40)]));
}

#[test]
fn commit_size_without_percentiles() {
    let summary = analyzer(None).build_summary(vec![4], vec![2]);
    assert!(summary.line_percentiles.is_none());
    assert_eq!(summary.median_lines, Median { lower: 4, upper: 4 });
    assert_eq!(summary.avg_lines, Mean { sum: 4, count: 1 });
}

#[test]
fn commit_size_holds_counts_at_the_counter_maximum() {
    let mut lines = Vec::new();
    let mut files = Vec::new();
    Analyzer::process_commit(
        DiffStats { files_changed: u64::MAX, lines_added: u64::MAX, lines_removed: u64::MAX },
        &mut lines,
        &mut files,
    );
    Analyzer::process_commit(
        DiffStats { files_changed: 4_294_967_295, lines_added: 4_294_967_290, lines_removed: 6 },
        &mut lines,
        &mut files,
    );
    assert_eq!(lines, vec![u32::MAX, u32::MAX]);
    assert_eq!(files, vec![u32::MAX, u32::MAX]);
}

#[test]
fn percentiles() {
    // Three commits that add a file of one, two and three lines.
    let mut lines = Vec::new();
    let mut files = Vec::new();
    for added in [3, 2, 1] {
        Analyzer::process_commit(
            DiffStats { files_changed: 1, lines_added: added, lines_removed: 0 },
            &mut lines,
            &mut files,
        );
    }
    let summary = analyzer(Some(vec![50_000, 100_000])).build_summary(lines, files);
    assert_eq!(summary.line_percentiles, Some(vec![(50_000, 2), (100_000, 3)]));
}
