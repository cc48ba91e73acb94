use git_productivity_analyzer::analysis::IntoAnalyzer;
use git_productivity_analyzer::commit_frequency::{process_commit, Options, Totals};
use git_productivity_analyzer::config::{Globals, LogVerbosity, RepoOptions};
use git_productivity_analyzer::model::{CommitMeta, Error, ErrorKind, ObjectId, Time};

fn commit(name: &str, seconds: i64, offset: i32) -> CommitMeta {
    CommitMeta {
        id: ObjectId { name: "c".to_string() },
        parents: Vec::new(),
        author_name: name.to_string(),
        author_email: format!("{}@example.com", name.to_lowercase()),
        author_time: Time { seconds, offset },
    }
}

const NEW_YEAR_2020: i64 = 1_577_836_800;

#[test]
fn commit_frequency_default_run() {
    let mut totals = Totals::new();
    for name in ["Ann", "Ben", "Cy"] {
        assert!(process_commit(&commit(name, NEW_YEAR_2020 + 60, 0), &None, &mut totals).is_ok());
    }
    let report = totals.report();
    assert_eq!(report.commits_per_day, vec![("2020-01-01".to_string(), 3)]);
    assert_eq!(report.commits_per_week, vec![("2020-W01".to_string(), 3)]);
    assert_eq!(
        report.active_days_per_author,
        vec![
            ("Ann <ann@example.com>".to_string(), 1),
            ("Ben <ben@example.com>".to_string(), 1),
            ("Cy <cy@example.com>".to_string(), 1),
        ]
    );
}

#[test]
fn days_and_weeks_are_counted_in_order() {
    let mut totals = Totals::new();
    let day = 86_400;
    // 8 January, then 1 January twice, then 31 December 2019 (week 1 of 2020),
    // then 29 December 2019 (week 52 of 2019).
    for shift in [7, 0, 0, -1, -3] {
        assert!(process_commit(&commit("Ann", NEW_YEAR_2020 + shift * day, 0), &None, &mut totals).is_ok());
    }
    let report = totals.report();
    assert_eq!(
        report.commits_per_day,
        vec![
            ("2019-12-29".to_string(), 1),
            ("2019-12-31".to_string(), 1),
            ("2020-01-01".to_string(), 2),
            ("2020-01-08".to_string(), 1),
        ]
    );
    assert_eq!(
        report.commits_per_week,
        vec![("2019-W52".to_string(), 1), ("2020-W01".to_string(), 3), ("2020-W02".to_string(), 1)]
    );
    assert_eq!(report.active_days_per_author, vec![("Ann <ann@example.com>".to_string(), 4)]);
    assert_eq!(totals.commits_per_day.keys, vec![18_259, 18_261, 18_262, 18_269]);
}

#[test]
fn commit_frequency_uses_the_local_day() {
    let mut totals = Totals::new();
    assert!(process_commit(&commit("Ann", NEW_YEAR_2020, -3_600), &None, &mut totals).is_ok());
    assert_eq!(totals.report().commits_per_day, vec![("2019-12-31".to_string(), 1)]);
}

#[test]
fn commit_frequency_author_filter() {
    let mut totals = Totals::new();
    let filter = Some("BEN".to_string());
    for name in ["Ann", "Ben", "Cy"] {
        assert!(process_commit(&commit(name, NEW_YEAR_2020, 0), &filter, &mut totals).is_ok());
    }
    let report = totals.report();
    assert_eq!(report.commits_per_day, vec![("2020-01-01".to_string(), 1)]);
    assert_eq!(report.active_days_per_author, vec![("Ben <ben@example.com>".to_string(), 1)]);

    let mut none = Totals::new();
    let filter = Some("nonexistent".to_string());
    assert!(process_commit(&commit("Ann", NEW_YEAR_2020, 0), &filter, &mut none).is_ok());
    let report = none.report();
    assert!(report.commits_per_day.is_empty());
    assert!(report.commits_per_week.is_empty());
    assert!(report.active_days_per_author.is_empty());
}

#[test]
fn commit_frequency_fails_on_unreadable_time() {
    let mut totals = Totals::new();
    let corrupt = Error { kind: ErrorKind::CorruptHistory };
    assert_eq!(process_commit(&commit("Ann", 0, -86_400), &None, &mut totals).err(), Some(corrupt));
    assert_eq!(totals.commits_per_day.len(), 0);
}

#[test]
fn options_make_an_analyzer() {
    let opts = Options {
        repo: RepoOptions { working_dir: "w".to_string(), rev_spec: "r".to_string() },
        author: Some("a".to_string()),
    };
    let globals = Globals { since: None, until: None, json: true, log_level: LogVerbosity::Info };
    let analyzer = opts.into_analyzer(globals);
    assert_eq!(analyzer.opts.repo.rev_spec, "r");
    assert_eq!(analyzer.opts.author, Some("a".to_string()));
    assert!(analyzer.globals.json);
}
