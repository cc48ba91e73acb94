use git_productivity_analyzer::changes::{carries_statistics, diff_base, is_merge, Base, MergePolicy};
use git_productivity_analyzer::model::{Change, CommitMeta, EntryKind, ObjectId, Time};

fn id(name: &str) -> ObjectId {
    ObjectId { name: name.to_string() }
}

fn commit(parents: &[&str]) -> CommitMeta {
    CommitMeta {
        id: id("c"),
        parents: parents.iter().map(|p| id(p)).collect(),
        author_name: "A".to_string(),
        author_email: "a@x".to_string(),
        author_time: Time { seconds: 0, offset: 0 },
    }
}

fn parent_name(base: Base<'_>) -> Option<String> {
    match base {
        Base::Parent(p) => Some(p.name.clone()),
        _ => None,
    }
}

#[test]
fn a_root_commit_is_compared_with_the_empty_tree() {
    let root = commit(&[]);
    assert!(matches!(diff_base(&root, MergePolicy::FirstParent), Base::Empty));
    assert!(matches!(diff_base(&root, MergePolicy::SkipMerges), Base::Empty));
    assert!(!is_merge(&root));
}

#[test]
fn a_commit_with_one_parent_is_compared_with_it() {
    let c = commit(&["p"]);
    assert_eq!(parent_name(diff_base(&c, MergePolicy::FirstParent)), Some("p".to_string()));
    assert_eq!(parent_name(diff_base(&c, MergePolicy::SkipMerges)), Some("p".to_string()));
    assert!(!is_merge(&c));
}

#[test]
fn a_merge_is_compared_with_its_first_parent_or_skipped() {
    let merge = commit(&["p1", "p2", "p3"]);
    assert!(is_merge(&merge));
    assert_eq!(parent_name(diff_base(&merge, MergePolicy::FirstParent)), Some("p1".to_string()));
    assert!(matches!(diff_base(&merge, MergePolicy::SkipMerges), Base::Skipped));
}

#[test]
fn only_changes_of_files_carry_statistics() {
    for (mode, expect) in [
        (EntryKind::Blob, true),
        (EntryKind::BlobExecutable, true),
        (EntryKind::Link, false),
        (EntryKind::Tree, false),
        (EntryKind::Submodule, false),
    ] {
        assert_eq!(mode.is_blob(), expect);
        let added = Change::Addition { path: "p".to_string(), id: id("b"), mode };
        assert_eq!(carries_statistics(&added), expect);
        assert_eq!(added.entry_kind(), mode);
        assert_eq!(added.path(), "p");
        let deleted = Change::Deletion { path: "p".to_string(), id: id("b"), mode };
        assert_eq!(carries_statistics(&deleted), expect);
        let renamed = Change::Rewrite {
            source_path: "o".to_string(),
            path: "p".to_string(),
            source_id: id("b"),
            id: id("b"),
            mode,
        };
        assert_eq!(carries_statistics(&renamed), expect);
        assert_eq!(renamed.path(), "p");
        let from_file = Change::Modification {
            path: "p".to_string(),
            previous_id: id("a"),
            id: id("b"),
            previous_mode: EntryKind::Blob,
            mode,
        };
        assert!(carries_statistics(&from_file));
        let from_tree = Change::Modification {
            path: "p".to_string(),
            previous_id: id("a"),
            id: id("b"),
            previous_mode: EntryKind::Tree,
            mode,
        };
        assert_eq!(carries_statistics(&from_tree), expect);
    }
}
