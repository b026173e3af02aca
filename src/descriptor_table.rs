use std::collections::HashMap;
use vstd::prelude::*;

use crate::identity::FileId;

verus! {

broadcast use vstd::std_specs::hash::group_hash_axioms;

/// What a table of descriptors holds for `fd`, if anything.
pub open spec fn binding(fds: Map<i32, FileId>, fd: i32) -> Option<FileId> {
    if fds.contains_key(fd) {
        Some(fds[fd])
    } else {
        None
    }
}

/// Maps each tracked descriptor number to the identity of the file it refers to.
pub struct DescriptorTable {
    ids: HashMap<i32, FileId>,
}

impl View for DescriptorTable {
    type V = Map<i32, FileId>;

    closed spec fn view(&self) -> Map<i32, FileId> {
        self.ids@
    }
}

impl DescriptorTable {
    /// An empty table: no descriptor is tracked.
    pub fn new() -> (r: DescriptorTable)
        ensures
            r@ == Map::<i32, FileId>::empty(),
    {
        DescriptorTable { ids: HashMap::new() }
    }

    /// The identity bound to `fd`, if it is tracked.
    pub fn lookup(&self, fd: i32) -> (r: Option<FileId>)
        ensures
            r == binding(self@, fd),
    {
        match self.ids.get(&fd) {
            Some(id) => Some(*id),
            None => None,
        }
    }

    /// Binds `fd` to `id`, replacing what it was bound to; returns the
    /// replaced identity.
    pub fn bind(&mut self, fd: i32, id: FileId) -> (r: Option<FileId>)
        ensures
            final(self)@ == old(self)@.insert(fd, id),
            r == binding(old(self)@, fd),
    {
        self.ids.insert(fd, id)
    }

    /// Removes the binding of `fd` and returns it.
    pub fn unbind(&mut self, fd: i32) -> (r: Option<FileId>)
        ensures
            final(self)@ == old(self)@.remove(fd),
            r == binding(old(self)@, fd),
    {
        self.ids.remove(&fd)
    }

    /// The number of tracked descriptors.
    pub fn len(&self) -> (r: usize)
        ensures
            r as nat == self@.len(),
            self@.dom().finite(),
    {
        self.ids.len()
    }
}

} // verus!
