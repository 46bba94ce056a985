//! One node met during a directory walk, as the filters see it.
use vstd::prelude::*;

verus! {

/// What kind of node an entry is.
#[derive(Clone, Copy, Debug, PartialEq, Eq, Structural)]
pub enum EntryKind {
    File,
    Dir,
    /// Anything else: an unresolved symbolic link, a device, a socket.
    Other,
}

/// One node met during a walk.
#[derive(Clone, Debug)]
pub struct Entry {
    /// The path under which the walk reached the node.
    pub path: String,
    /// The final component of the path as text; `None` where the path has no
    /// final component or it is not valid Unicode.
    pub name: Option<String>,
    pub kind: EntryKind,
    /// How many directory levels below the root the node lies; the root is at 0.
    pub depth: usize,
}

impl Entry {
    pub fn new(path: String, name: Option<String>, kind: EntryKind, depth: usize) -> (r: Entry)
        ensures
            r.path == path,
            r.name == name,
            r.kind == kind,
            r.depth == depth,
    {
        Entry { path, name, kind, depth }
    }
}

} // verus!
