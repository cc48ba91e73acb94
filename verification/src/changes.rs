//! Which tree a commit is compared with, and which changes count.

use vstd::prelude::*;
use crate::model::{Change, CommitId, CommitMeta};

verus! {

/// What an aggregator does with a commit that has several parents.
#[derive(Clone, Copy, Debug, PartialEq, Eq, Structural)]
pub enum MergePolicy {
    /// Compare with the first parent.
    FirstParent,
    /// Attribute no change at all.
    SkipMerges,
}

/// The tree that a commit's tree is compared with.
pub enum Base<'a> {
    /// The empty tree: every path of a root commit is an addition.
    Empty,
    /// The tree of this parent.
    Parent(&'a CommitId),
    /// None: the commit contributes no changes.
    Skipped,
}

/// The base for a commit with the given parents.
pub open spec fn base_of(parents: Seq<CommitId>, policy: MergePolicy) -> Option<Option<Seq<char>>> {
    if parents.len() == 0 {
        Some(None)
    } else if parents.len() == 1 || policy == MergePolicy::FirstParent {
        Some(Some(parents[0]@))
    } else {
        None
    }
}

/// Whether a commit is a merge.
pub fn is_merge(commit: &CommitMeta) -> (merge: bool)
    ensures
        merge == (commit.parents@.len() >= 2),
{
    commit.parents.len() >= 2
}

/// Picks the tree to compare a commit with: the empty tree for a root
/// commit, the only parent's tree, and for a merge the first parent's tree
/// or nothing, as the policy says.
pub fn diff_base<'a>(commit: &'a CommitMeta, policy: MergePolicy) -> (base: Base<'a>)
    ensures
        base is Empty <==> base_of(commit.parents@, policy) == Some(None::<Seq<char>>),
        base is Skipped <==> base_of(commit.parents@, policy) is None,
        base matches Base::Parent(p) ==> *p == commit.parents@[0] && base_of(
            commit.parents@,
            policy,
        ) == Some(Some(p@)),
{
    if commit.parents.len() == 0 {
        Base::Empty
    } else if commit.parents.len() == 1 {
        Base::Parent(&commit.parents[0])
    } else {
        match policy {
            MergePolicy::FirstParent => Base::Parent(&commit.parents[0]),
            MergePolicy::SkipMerges => Base::Skipped,
        }
    }
}

/// A change carries statistics when it touches a file: the entry is one
/// after the change, or, for a modification, was one before it.
pub open spec fn touches_blob(change: Change) -> bool {
    match change {
        Change::Modification { previous_mode, mode, .. } => previous_mode.blob() || mode.blob(),
        _ => change.kind().blob(),
    }
}

/// Whether a change reaches the aggregators: changes of directories and
/// submodules do not.
pub fn carries_statistics(change: &Change) -> (keep: bool)
    ensures
        keep == touches_blob(*change),
{
    match change {
        Change::Modification { previous_mode, mode, .. } => previous_mode.is_blob() || mode.is_blob(),
        Change::Addition { mode, .. } => mode.is_blob(),
        Change::Deletion { mode, .. } => mode.is_blob(),
        Change::Rewrite { mode, .. } => mode.is_blob(),
    }
}

} // verus!
