//! Which changes of files reload the diff.
use vstd::prelude::*;

use crate::text::{contains_name, has_name};

verus! {

/// What has happened to files.
#[derive(Debug, Clone, Copy, PartialEq, Eq, Structural)]
pub enum ChangeKind {
    /// They were read.
    Access,
    /// Their metadata has changed.
    Metadata,
    /// Anything else.
    Other,
}

/// Whether a path has a component that is ignored. A path is given by its
/// components.
pub open spec fn ignored(path: Seq<String>, ignore_paths: Seq<String>) -> bool {
    exists|i: int| 0 <= i < path.len() && has_name(ignore_paths, (#[trigger] path[i])@)
}

/// Whether a path has a component that is ignored.
pub fn is_ignored_fs_path(path: &[String], ignore_paths: &[String]) -> (r: bool)
    ensures
        r == ignored(path@, ignore_paths@),
{
    let mut i: usize = 0;
    while i < path.len()
        invariant
            i <= path@.len(),
            forall|k: int| 0 <= k < i ==> !has_name(ignore_paths@, (#[trigger] path@[k])@),
        decreases path@.len() - i,
    {
        if contains_name(ignore_paths, path[i].as_str()) {
            return true;
        }
        i = i + 1;
    }
    false
}

/// Whether a change is ignored: reads and changes of metadata are, and changes
/// of ignored paths alone.
pub fn should_ignore_fs_event(kind: ChangeKind, paths: &[Vec<String>], ignore_paths: &[String]) -> (r:
    bool)
    ensures
        r == (kind != ChangeKind::Other || forall|i: int|
            0 <= i < paths@.len() ==> ignored((#[trigger] paths@[i])@, ignore_paths@)),
{
    if kind != ChangeKind::Other {
        return true;
    }
    let mut i: usize = 0;
    while i < paths.len()
        invariant
            i <= paths@.len(),
            kind == ChangeKind::Other,
            forall|k: int| 0 <= k < i ==> ignored((#[trigger] paths@[k])@, ignore_paths@),
        decreases paths@.len() - i,
    {
        if !is_ignored_fs_path(&paths[i], ignore_paths) {
            return false;
        }
        i = i + 1;
    }
    true
}

} // verus!
