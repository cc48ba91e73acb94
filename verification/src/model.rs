//! The values that a history hands to the aggregators.

use vstd::prelude::*;

verus! {

/// Identifier of a commit or of a blob, as its hexadecimal name.
///
/// Two identifiers are the same object exactly when their names are equal.
pub struct ObjectId {
    pub name: String,
}

impl View for ObjectId {
    type V = Seq<char>;

    open spec fn view(&self) -> Seq<char> {
        self.name@
    }
}

impl ObjectId {
    /// Whether both name the same object.
    pub fn same(&self, other: &ObjectId) -> (eq: bool)
        ensures
            eq == (self@ == other@),
    {
        self.name == other.name
    }

    /// A copy of the identifier.
    pub fn duplicate(&self) -> (copy: ObjectId)
        ensures
            copy@ == self@,
    {
        ObjectId { name: self.name.clone() }
    }
}

/// Identifier of a commit.
pub type CommitId = ObjectId;

/// What a tree entry is.
#[derive(Clone, Copy, Debug, PartialEq, Eq, Structural)]
pub enum EntryKind {
    /// A regular file.
    Blob,
    /// A file with the executable bit.
    BlobExecutable,
    /// A symbolic link.
    Link,
    /// A directory.
    Tree,
    /// A submodule.
    Submodule,
}

impl EntryKind {
    /// Only file entries carry content statistics.
    pub open spec fn blob(self) -> bool {
        self == EntryKind::Blob || self == EntryKind::BlobExecutable
    }

    /// Whether the entry is a file.
    pub fn is_blob(self) -> (b: bool)
        ensures
            b == self.blob(),
    {
        match self {
            EntryKind::Blob => true,
            EntryKind::BlobExecutable => true,
            _ => false,
        }
    }
}

/// One path-level difference between a commit's tree and its base tree.
pub enum Change {
    Addition { path: String, id: ObjectId, mode: EntryKind },
    Deletion { path: String, id: ObjectId, mode: EntryKind },
    Modification {
        path: String,
        previous_id: ObjectId,
        id: ObjectId,
        previous_mode: EntryKind,
        mode: EntryKind,
    },
    Rewrite { source_path: String, path: String, source_id: ObjectId, id: ObjectId, mode: EntryKind },
}

impl Change {
    /// The path at which the change shows in the commit's tree; for a
    /// deletion, the path that is gone.
    pub open spec fn location(&self) -> Seq<char> {
        match self {
            Change::Addition { path, .. } => path@,
            Change::Deletion { path, .. } => path@,
            Change::Modification { path, .. } => path@,
            Change::Rewrite { path, .. } => path@,
        }
    }

    /// The kind of the entry after the change; for a deletion, before it.
    pub open spec fn kind(&self) -> EntryKind {
        match self {
            Change::Addition { mode, .. } => *mode,
            Change::Deletion { mode, .. } => *mode,
            Change::Modification { mode, .. } => *mode,
            Change::Rewrite { mode, .. } => *mode,
        }
    }

    /// The path of the change.
    pub fn path(&self) -> (p: &String)
        ensures
            p@ == self.location(),
    {
        match self {
            Change::Addition { path, .. } => path,
            Change::Deletion { path, .. } => path,
            Change::Modification { path, .. } => path,
            Change::Rewrite { path, .. } => path,
        }
    }

    /// The kind of the changed entry.
    pub fn entry_kind(&self) -> (k: EntryKind)
        ensures
            k == self.kind(),
    {
        match self {
            Change::Addition { mode, .. } => *mode,
            Change::Deletion { mode, .. } => *mode,
            Change::Modification { mode, .. } => *mode,
            Change::Rewrite { mode, .. } => *mode,
        }
    }
}

/// When a commit was authored: seconds since the epoch, and the author's
/// offset from UTC in seconds.
#[derive(Clone, Copy, Debug, PartialEq, Eq, Structural)]
pub struct Time {
    pub seconds: i64,
    pub offset: i32,
}

/// What is read of a commit.
pub struct CommitMeta {
    pub id: CommitId,
    pub parents: Vec<CommitId>,
    pub author_name: String,
    pub author_email: String,
    pub author_time: Time,
}

/// The two ends of a walk.
pub struct WalkRange {
    pub start: CommitId,
    pub since: Option<CommitId>,
}

/// Which setting a configuration got wrong.
#[derive(Clone, Copy, Debug, PartialEq, Eq, Structural)]
pub enum Setting {
    Percentile,
    Bins,
    SizeReference,
    PathPattern,
}

/// The ways in which a run fails.
#[derive(Clone, Copy, Debug, PartialEq, Eq, Structural)]
pub enum ErrorKind {
    /// A revision that names no reachable commit.
    UnresolvableRevision,
    /// A commit that cannot be read as one.
    CorruptHistory,
    /// A setting outside its range, found before the walk begins.
    InvalidConfiguration(Setting),
}

/// Why a run failed.
#[derive(Clone, Copy, Debug, PartialEq, Eq, Structural)]
pub struct Error {
    pub kind: ErrorKind,
}

impl Error {
    /// The error for a revision that names no reachable commit.
    pub open spec fn unresolvable() -> Error {
        Error { kind: ErrorKind::UnresolvableRevision }
    }

    /// The error for a commit that cannot be read.
    pub open spec fn corrupt() -> Error {
        Error { kind: ErrorKind::CorruptHistory }
    }

    /// The error for a setting outside its range.
    pub open spec fn invalid(setting: Setting) -> Error {
        Error { kind: ErrorKind::InvalidConfiguration(setting) }
    }

    /// Makes the error for a revision that names no reachable commit.
    pub fn unresolvable_revision() -> (e: Error)
        ensures
            e == Error::unresolvable(),
    {
        Error { kind: ErrorKind::UnresolvableRevision }
    }

    /// Makes the error for a commit that cannot be read.
    pub fn corrupt_history() -> (e: Error)
        ensures
            e == Error::corrupt(),
    {
        Error { kind: ErrorKind::CorruptHistory }
    }

    /// Makes the error for a setting outside its range.
    pub fn invalid_configuration(setting: Setting) -> (e: Error)
        ensures
            e == Error::invalid(setting),
    {
        Error { kind: ErrorKind::InvalidConfiguration(setting) }
    }
}

/// What a visitor asks of the walk.
#[derive(Clone, Copy, Debug, PartialEq, Eq, Structural)]
pub enum Control {
    Continue,
    Stop,
}

} // verus!
