//! The records that the two sides of a run are listed as.

use vstd::prelude::*;
use vstd::string::StringExecFns;
use crate::exclude::matchable;
use crate::paths::leaf_of;

verus! {

/// A point in time in UTC: whole seconds since the start of 1970, and the
/// nanoseconds behind them.
#[derive(Clone, Copy, Debug, PartialEq, Eq, Structural)]
pub struct Timestamp {
    pub secs: i64,
    pub nanos: u32,
}

impl Timestamp {
    /// `self` is no later than `other`.
    pub open spec fn at_or_before(self, other: Timestamp) -> bool {
        self.secs < other.secs || (self.secs == other.secs && self.nanos <= other.nanos)
    }

    /// Whether `self` is no later than `other`.
    pub fn is_at_or_before(&self, other: &Timestamp) -> (r: bool)
        ensures
            r == self.at_or_before(*other),
    {
        self.secs < other.secs || (self.secs == other.secs && self.nanos <= other.nanos)
    }
}

/// One node of the local tree.
#[derive(Clone, Debug, PartialEq, Eq)]
pub struct LocalFile {
    /// The path below the directory that was listed, with `/` between its
    /// segments.
    pub relative_path: String,
    /// The path of the node itself.
    pub path: String,
    pub is_directory: bool,
    pub last_changed: Timestamp,
    /// The size in bytes; 0 for a directory.
    pub length: u64,
}

impl LocalFile {
    /// The record of a node as it was found. A directory is recorded with
    /// the size 0, whatever the file system reports for it.
    pub fn new(
        relative_path: String,
        path: String,
        is_directory: bool,
        last_changed: Timestamp,
        length: u64,
    ) -> (r: LocalFile)
        ensures
            r.relative_path == relative_path,
            r.path == path,
            r.is_directory == is_directory,
            r.last_changed == last_changed,
            r.length == if is_directory {
                0
            } else {
                length
            },
    {
        LocalFile {
            relative_path,
            path,
            is_directory,
            last_changed,
            length: if is_directory {
                0
            } else {
                length
            },
        }
    }

    /// The leaf name of the node.
    pub open spec fn name(&self) -> Seq<char> {
        leaf_of(self.path@)
    }

    /// The name can be held against exclusion patterns.
    pub open spec fn nameable(&self) -> bool {
        matchable(self.name())
    }

    /// A copy of the record.
    pub fn copy(&self) -> (r: LocalFile)
        ensures
            r == *self,
    {
        LocalFile {
            relative_path: self.relative_path.clone(),
            path: self.path.clone(),
            is_directory: self.is_directory,
            last_changed: self.last_changed,
            length: self.length,
        }
    }
}

/// One object or pseudo-directory of a storage zone, as the service lists
/// it.
#[derive(Clone, Debug, PartialEq, Eq)]
pub struct StorageObject {
    pub guid: String,
    pub storage_zone_name: String,
    /// The pseudo-directory that holds the entry; it ends in a separator.
    pub path: String,
    /// The leaf name.
    pub object_name: String,
    pub length: u64,
    /// The service gives times without a zone; they are taken as UTC.
    pub last_changed: Timestamp,
    pub is_directory: bool,
    pub date_created: Timestamp,
}

impl StorageObject {
    /// The key of the entry in the remote namespace.
    pub open spec fn key(&self) -> Seq<char> {
        self.path@ + self.object_name@
    }

    /// The path under which the entry's own children are listed.
    pub open spec fn directory_path(&self) -> Seq<char> {
        self.path@ + self.object_name@ + seq!['/']
    }

    /// The path under which the object's bytes are asked for.
    pub open spec fn download_path(&self) -> Seq<char> {
        self.path@ + seq!['/'] + self.object_name@
    }

    /// The name can be held against exclusion patterns.
    pub open spec fn nameable(&self) -> bool {
        matchable(self.object_name@)
    }

    /// A copy of the record.
    pub fn copy(&self) -> (r: StorageObject)
        ensures
            r == *self,
    {
        StorageObject {
            guid: self.guid.clone(),
            storage_zone_name: self.storage_zone_name.clone(),
            path: self.path.clone(),
            object_name: self.object_name.clone(),
            length: self.length,
            last_changed: self.last_changed,
            is_directory: self.is_directory,
            date_created: self.date_created,
        }
    }

    /// The key of the entry: its pseudo-directory and its name.
    pub fn sync_key(&self) -> (r: String)
        ensures
            r@ == self.key(),
    {
        let mut out = self.path.clone();
        out.append(self.object_name.as_str());
        out
    }

    /// The path under which the children of a pseudo-directory are listed.
    pub fn child_path(&self) -> (r: String)
        ensures
            r@ == self.directory_path(),
    {
        proof {
            reveal_strlit("/");
            assert("/"@ =~= seq!['/']);
        }
        let mut out = self.path.clone();
        out.append(self.object_name.as_str());
        out.append("/");
        out
    }

    /// The path under which the object's bytes are asked for.
    pub fn object_path(&self) -> (r: String)
        ensures
            r@ == self.download_path(),
    {
        proof {
            reveal_strlit("/");
            assert("/"@ =~= seq!['/']);
        }
        let mut out = self.path.clone();
        out.append("/");
        out.append(self.object_name.as_str());
        out
    }
}

} // verus!
