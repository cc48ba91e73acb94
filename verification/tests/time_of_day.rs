use git_productivity_analyzer::config::{Globals, LogVerbosity, RepoOptions};
use git_productivity_analyzer::model::{CommitMeta, Error, ErrorKind, ObjectId, Setting, Time};
use git_productivity_analyzer::time_of_day::{process_commit, Analyzer, Histogram, Options};

fn analyzer(bins: u8) -> Analyzer {
    Analyzer::new(
        Options {
            repo: RepoOptions { working_dir: ".".to_string(), rev_spec: "HEAD".to_string() },
            bins,
            author: None,
        },
        Globals { since: None, until: None, json: false, log_level: LogVerbosity::Warn },
    )
}

fn commit(name: &str, seconds: i64, offset: i32) -> CommitMeta {
    CommitMeta {
        id: ObjectId { name: "c".to_string() },
        parents: Vec::new(),
        author_name: name.to_string(),
        author_email: format!("{}@example.com", name.to_lowercase()),
        author_time: Time { seconds, offset },
    }
}

#[test]
fn bins_must_be_between_1_and_24() {
    let bad = Error { kind: ErrorKind::InvalidConfiguration(Setting::Bins) };
    assert_eq!(analyzer(0).start().err(), Some(bad));
    assert_eq!(analyzer(25).start().err(), Some(bad));
    assert_eq!(analyzer(255).start().err(), Some(bad));
    assert_eq!(analyzer(1).start().ok().unwrap().counts(), &vec![0]);
    assert_eq!(analyzer(24).start().ok().unwrap().counts().len(), 24);
}

#[test]
fn commits_fall_in_the_bin_of_their_local_hour() {
    let mut hist = analyzer(24).start().ok().unwrap();
    // 00:00, 12:00 and 23:00 on 1 January 2020, UTC.
    for (name, seconds) in [("A", 1_577_836_800), ("B", 1_577_880_000), ("C", 1_577_919_600)] {
        assert!(process_commit(&commit(name, seconds, 0), &None, &mut hist).is_ok());
    }
    let mut expect = vec![0u32; 24];
    expect[0] = 1;
    expect[12] = 1;
    expect[23] = 1;
    assert_eq!(hist.counts(), &expect);

    let mut four = analyzer(4).start().ok().unwrap();
    for hour in 0..24i64 {
        assert!(process_commit(&commit("A", hour * 3_600, 0), &None, &mut four).is_ok());
    }
    assert_eq!(four.counts(), &vec![6, 6, 6, 6]);

    let mut five = analyzer(5).start().ok().unwrap();
    for hour in 0..24i64 {
        assert!(process_commit(&commit("A", hour * 3_600, 0), &None, &mut five).is_ok());
    }
    // hour * 5 / 24: hours 0-4, 5-9, 10-14, 15-19, 20-23
    assert_eq!(five.counts(), &vec![5, 5, 5, 5, 4]);
}

#[test]
fn the_offset_moves_the_hour() {
    let mut hist = analyzer(24).start().ok().unwrap();
    assert!(process_commit(&commit("A", 1_577_836_800, 3_600 * 9), &None, &mut hist).is_ok());
    assert!(process_commit(&commit("A", 1_577_836_800, -3_600), &None, &mut hist).is_ok());
    assert_eq!(hist.counts()[9], 1);
    assert_eq!(hist.counts()[23], 1);
}

#[test]
fn time_of_day_author_filter() {
    let mut hist = analyzer(24).start().ok().unwrap();
    let filter = Some("a@example.com".to_string());
    for (name, seconds) in [("A", 1_577_836_800), ("B", 1_577_880_000), ("C", 1_577_919_600)] {
        assert!(process_commit(&commit(name, seconds, 0), &filter, &mut hist).is_ok());
    }
    assert_eq!(hist.counts().iter().sum::<u32>(), 1);
    assert_eq!(hist.counts()[0], 1);
}

#[test]
fn unreadable_time_is_corrupt_history() {
    let mut hist = analyzer(3).start().ok().unwrap();
    let corrupt = Error { kind: ErrorKind::CorruptHistory };
    assert_eq!(process_commit(&commit("A", 0, 90_000), &None, &mut hist).err(), Some(corrupt));
    assert_eq!(process_commit(&commit("A", i64::MAX, 0), &None, &mut hist).err(), Some(corrupt));
    // A commit that the filter leaves out is not read at all.
    assert!(process_commit(&commit("A", 0, 90_000), &Some("zzz".to_string()), &mut hist).is_ok());
    assert_eq!(hist.counts(), &vec![0, 0, 0]);
}

#[test]
fn counts_sum_to_commits_for_every_number_of_bins() {
    for bins in 1..=24u8 {
        let mut hist = analyzer(bins).start().ok().unwrap();
        let mut commits = 0u32;
        for step in 0..100i64 {
            let c = commit("A", step * 4_001 - 50_000, ((step % 7) * 3_600) as i32);
            assert!(process_commit(&c, &None, &mut hist).is_ok());
            commits += 1;
        }
        assert_eq!(hist.counts().len(), bins as usize);
        assert_eq!(hist.counts().iter().sum::<u32>(), commits);
    }
}

#[test]
fn bin_bounds_match_the_bins() {
    assert_eq!(Analyzer::bin_bounds(0, 24), (0, 0));
    assert_eq!(Analyzer::bin_bounds(23, 24), (23, 23));
    assert_eq!(Analyzer::bin_bounds(0, 1), (0, 23));
    assert_eq!(Analyzer::bin_bounds(0, 5), (0, 4));
    assert_eq!(Analyzer::bin_bounds(4, 5), (20, 23));
    assert_eq!(Analyzer::bin_bounds(1, 7), (4, 6));
    for bins in 1..=24u32 {
        let mut next = 0;
        for i in 0..bins {
            let (first, last) = Analyzer::bin_bounds(i, bins);
            assert_eq!(first, next);
            for hour in first..=last {
                assert_eq!(hour * bins / 24, i);
            }
            next = last + 1;
        }
        assert_eq!(next, 24);
    }
}

#[test]
fn counter_stays_at_its_maximum() {
    let mut hist = Histogram { counts: vec![u32::MAX] };
    assert!(process_commit(&commit("A", 0, 0), &None, &mut hist).is_ok());
    assert_eq!(hist.counts(), &vec![u32::MAX]);
}
