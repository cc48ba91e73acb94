use git_productivity_analyzer::model::{CommitId, Control, Error, ErrorKind, ObjectId};
use git_productivity_analyzer::walk::{plan, resolve, start_revision, walk_length, Resolution, Walker};

fn id(name: &str) -> CommitId {
    ObjectId { name: name.to_string() }
}

#[test]
fn start_revision_prefers_until() {
    let head = "HEAD".to_string();
    assert_eq!(start_revision(&head, &None), "HEAD");
    assert_eq!(start_revision(&head, &Some("v1".to_string())), "v1");
}

#[test]
fn resolve_builds_the_range() {
    let range = resolve(Resolution::Commit(id("c1")), Resolution::NotGiven).ok().unwrap();
    assert_eq!(range.start.name, "c1");
    assert!(range.since.is_none());
    let range = resolve(Resolution::Commit(id("c1")), Resolution::Commit(id("c0"))).ok().unwrap();
    assert_eq!(range.since.unwrap().name, "c0");
}

#[test]
fn resolve_fails_on_unknown_revisions() {
    let unresolvable = Error { kind: ErrorKind::UnresolvableRevision };
    assert_eq!(resolve(Resolution::Unknown, Resolution::NotGiven).err(), Some(unresolvable));
    assert_eq!(resolve(Resolution::NotGiven, Resolution::NotGiven).err(), Some(unresolvable));
    assert_eq!(resolve(Resolution::Commit(id("c1")), Resolution::Unknown).err(), Some(unresolvable));
}

#[test]
fn walk_visits_since_and_stops() {
    // c1 is the start and c0, its parent, the lower bound: both are visited,
    // in this order, and nothing is asked for after c0.
    let mut walker = Walker::begin(Some(id("c0")));
    let mut seen = Vec::new();
    for name in ["c1", "c0", "older"] {
        if walker.is_finished() {
            break;
        }
        let next = walker.visited(&id(name), Control::Continue);
        seen.push(name);
        if next == Control::Stop {
            assert!(walker.is_finished());
        }
    }
    assert_eq!(seen, vec!["c1", "c0"]);
}

#[test]
fn walk_without_bound_visits_everything() {
    let ancestors = vec![id("c2"), id("c1"), id("c0")];
    assert_eq!(walk_length(&ancestors, None), 3);
    assert_eq!(walk_length(&ancestors, Some(id("unrelated"))), 3);
    assert_eq!(walk_length(&ancestors, Some(id("c1"))), 2);
    assert_eq!(walk_length(&ancestors, Some(id("c2"))), 1);
    assert_eq!(walk_length(&Vec::new(), Some(id("c2"))), 0);
}

#[test]
fn visitor_can_stop_the_walk() {
    let mut walker = Walker::begin(None);
    assert_eq!(walker.visited(&id("c2"), Control::Continue), Control::Continue);
    assert!(!walker.is_finished());
    assert_eq!(walker.visited(&id("c1"), Control::Stop), Control::Stop);
    assert!(walker.is_finished());
}

#[test]
fn object_ids_compare_by_name() {
    assert!(id("abc").same(&id("abc")));
    assert!(!id("abc").same(&id("abd")));
    assert_eq!(id("abc").duplicate().name, "abc");
}

#[test]
fn a_repository_without_commits_has_no_range() {
    assert!(plan(false, Resolution::Unknown, Resolution::Unknown).ok().unwrap().is_none());
    assert!(plan(false, Resolution::Commit(id("c1")), Resolution::NotGiven).ok().unwrap().is_none());
    let range = plan(true, Resolution::Commit(id("c1")), Resolution::Commit(id("c0"))).ok().unwrap().unwrap();
    assert_eq!(range.start.name, "c1");
    assert_eq!(range.since.unwrap().name, "c0");
    let unresolvable = Error { kind: ErrorKind::UnresolvableRevision };
    assert_eq!(plan(true, Resolution::Unknown, Resolution::NotGiven).err(), Some(unresolvable));
    assert_eq!(plan(true, Resolution::Commit(id("c1")), Resolution::Unknown).err(), Some(unresolvable));
}
