use git_productivity_analyzer::days::AuthorDays;
use git_productivity_analyzer::ints::DaySet;
use git_productivity_analyzer::model::{CommitMeta, Error, ErrorKind, ObjectId, Time};
use git_productivity_analyzer::streaks::{longest_streak, process_commit, Analyzer, Streaks};
use git_productivity_analyzer::table::TextMap;

fn set(days: &[i64]) -> DaySet {
    let mut set = DaySet::new();
    for d in days {
        set.insert(*d);
    }
    set
}

fn commit(name: &str, email: &str, day: i64) -> CommitMeta {
    CommitMeta {
        id: ObjectId { name: "c".to_string() },
        parents: Vec::new(),
        author_name: name.to_string(),
        author_email: email.to_string(),
        author_time: Time { seconds: day * 86_400, offset: 0 },
    }
}

#[test]
fn three_consecutive_days_are_a_streak_of_three() {
    let day0 = 18_262;
    assert_eq!(longest_streak(&set(&[day0, day0 + 1, day0 + 2])), 3);
}

#[test]
fn a_gap_resets_the_streak() {
    let day0 = 18_262;
    assert_eq!(longest_streak(&set(&[day0, day0 + 2])), 1);
}

#[test]
fn longest_streak_of_other_sets() {
    assert_eq!(longest_streak(&set(&[])), 0);
    assert_eq!(longest_streak(&set(&[5])), 1);
    assert_eq!(longest_streak(&set(&[1, 2, 4, 5, 6, 7, 9])), 4);
    assert_eq!(longest_streak(&set(&[7, 6, 5, 1, 2, 2, 2])), 3);
    assert_eq!(longest_streak(&set(&[-1, 0, 1])), 3);
    assert_eq!(longest_streak(&set(&[i64::MAX - 1, i64::MAX])), 2);
}

#[test]
fn day_set_is_ascending_without_repeats() {
    let mut days = DaySet::new();
    assert!(days.insert(3));
    assert!(days.insert(1));
    assert!(!days.insert(3));
    assert!(days.insert(2));
    assert_eq!(days.days, vec![1, 2, 3]);
    assert_eq!(days.len(), 3);
}

#[test]
fn streaks_default() {
    let mut by_author = AuthorDays::new();
    let commits = [
        commit("Alice", "a@example.com", 18_262),
        commit("Alice", "a@example.com", 18_263),
        commit("Alice", "a@example.com", 18_264),
        commit("Bob", "b@example.com", 18_262),
        commit("Bob", "b@example.com", 18_265),
        commit("Alice", "a@example.com", 18_266),
    ];
    for c in commits.iter() {
        assert!(process_commit(c, &None, &mut by_author).is_ok());
    }
    let streaks = Analyzer::longest_streaks(&by_author);
    let map = streaks.as_map();
    assert_eq!(map.len(), 2);
    assert_eq!(map.get("Alice <a@example.com>"), Some(&3));
    assert_eq!(map.get("Bob <b@example.com>"), Some(&1));
    let inner = streaks.into_inner();
    assert_eq!(inner.key_at(0), "Alice <a@example.com>");
    assert_eq!(inner.key_at(1), "Bob <b@example.com>");
}

#[test]
fn streaks_filtered() {
    let mut by_author = AuthorDays::new();
    let filter = Some("alice".to_string());
    assert!(process_commit(&commit("Alice", "a@example.com", 1), &filter, &mut by_author).is_ok());
    assert!(process_commit(&commit("Bob", "b@example.com", 1), &filter, &mut by_author).is_ok());
    assert_eq!(by_author.len(), 1);
    assert_eq!(by_author.author_at(0), "Alice <a@example.com>");
    assert_eq!(by_author.days_at(0).days, vec![1]);
}

#[test]
fn streaks_use_the_local_day() {
    let mut by_author = AuthorDays::new();
    let mut late = commit("A", "a@x", 10);
    late.author_time = Time { seconds: 10 * 86_400 + 23 * 3_600, offset: 7_200 };
    assert!(process_commit(&late, &None, &mut by_author).is_ok());
    assert_eq!(by_author.days_at(0).days, vec![11]);
}

#[test]
fn streaks_fail_on_unreadable_time() {
    let mut by_author = AuthorDays::new();
    let mut bad = commit("A", "a@x", 10);
    bad.author_time = Time { seconds: 0, offset: 100_000 };
    let corrupt = Error { kind: ErrorKind::CorruptHistory };
    assert_eq!(process_commit(&bad, &None, &mut by_author).err(), Some(corrupt));
    assert_eq!(by_author.len(), 0);
}

#[test]
fn streaks_wrap_a_map() {
    let mut map: TextMap<u32> = TextMap::new();
    map.put("a".to_string(), 2);
    let streaks = Streaks::from_map(map);
    assert_eq!(streaks.as_map().get("a"), Some(&2));
    assert_eq!(streaks.into_inner().len(), 1);
}
