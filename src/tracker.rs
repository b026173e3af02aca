use vstd::prelude::*;

use crate::descriptor_table::{binding, DescriptorTable};
use crate::identity::FileId;
use crate::ref_counts::{count_of, RefCountTable};
use crate::refs::{lemma_holders_finite, lemma_refs_insert, lemma_refs_positive, lemma_refs_remove, refs};

verus! {

/// Whether `r` names the identity whose last tracked reference went away
/// between two states of the descriptor table: `Some(id)` when `id` had
/// references before and has none after, while every other identity that had
/// references keeps some; `None` when every identity that had references
/// keeps some.
pub open spec fn released(
    before: Map<i32, FileId>,
    after: Map<i32, FileId>,
    r: Option<FileId>,
) -> bool {
    match r {
        Some(id) => {
            &&& refs(before, id) > 0
            &&& refs(after, id) == 0
            &&& forall|x: FileId| #[trigger]
                refs(before, x) > 0 && x != id ==> refs(after, x) > 0
        },
        None => forall|x: FileId| #[trigger] refs(before, x) > 0 ==> refs(after, x) > 0,
    }
}

/// The identity that a duplication of `src` carries: the one `src` is bound
/// to, or, for a source seen for the first time, the one resolved for the new
/// descriptor.
pub open spec fn dup_identity(
    fds: Map<i32, FileId>,
    src: i32,
    resolved: Option<FileId>,
) -> Option<FileId> {
    if fds.contains_key(src) {
        Some(fds[src])
    } else {
        resolved
    }
}

/// The descriptor table after `src` was duplicated into `new`: both are bound
/// to the duplication's identity; without one, `new` is left untracked.
pub open spec fn after_dup(
    fds: Map<i32, FileId>,
    src: i32,
    new: i32,
    resolved: Option<FileId>,
) -> Map<i32, FileId> {
    match dup_identity(fds, src, resolved) {
        Some(id) => fds.insert(src, id).insert(new, id),
        None => fds.remove(new),
    }
}

/// The descriptor table after a duplication of `src` that returned `ret`:
/// a negative `ret` is a failure, any other the new descriptor.
pub open spec fn dup_outcome(
    fds: Map<i32, FileId>,
    src: i32,
    ret: i32,
    resolved: Option<FileId>,
) -> Map<i32, FileId> {
    if ret >= 0 {
        after_dup(fds, src, ret, resolved)
    } else {
        fds
    }
}

/// The descriptor table after a control operation on `fd` that returned
/// `ret`; `duplicating` says whether the operation was one that duplicates.
pub open spec fn fcntl_outcome(
    fds: Map<i32, FileId>,
    fd: i32,
    duplicating: bool,
    ret: i32,
    resolved: Option<FileId>,
) -> Map<i32, FileId> {
    if duplicating && ret >= 0 {
        after_dup(fds, fd, ret, resolved)
    } else {
        fds
    }
}

/// Tracks the identity of each descriptor that went through a duplication or
/// a close, and how many tracked descriptors reference each identity.
pub struct Tracker {
    fds: DescriptorTable,
    counts: RefCountTable,
}

impl Tracker {
    /// The descriptor table: each tracked descriptor and its identity.
    pub closed spec fn descriptors(&self) -> Map<i32, FileId> {
        self.fds@
    }

    /// The reference count table.
    pub closed spec fn ref_counts(&self) -> Map<FileId, nat> {
        self.counts@
    }

    /// The count table holds no zero counts.
    pub closed spec fn tables_wf(&self) -> bool {
        self.counts.wf()
    }

    /// The count of every identity is the number of tracked descriptors bound
    /// to it.
    pub open spec fn wf(&self) -> bool {
        &&& self.tables_wf()
        &&& self.descriptors().dom().finite()
        &&& forall|id: FileId| #[trigger]
            count_of(self.ref_counts(), id) == refs(self.descriptors(), id)
    }

    /// A tracker that tracks nothing yet.
    pub fn new() -> (r: Tracker)
        ensures
            r.wf(),
            r.descriptors() == Map::<i32, FileId>::empty(),
    {
        let r = Tracker { fds: DescriptorTable::new(), counts: RefCountTable::new() };
        assert forall|id: FileId| #[trigger]
            count_of(r.ref_counts(), id) == refs(r.descriptors(), id) by {
            lemma_holders_finite(r.descriptors(), id);
            assert(r.descriptors().dom() =~= Set::<i32>::empty());
        }
        r
    }

    /// The identity that `fd` is tracked under, if any.
    pub fn identity_of(&self, fd: i32) -> (r: Option<FileId>)
        ensures
            r == binding(self.descriptors(), fd),
    {
        self.fds.lookup(fd)
    }

    /// The number of tracked descriptors that reference `id`.
    pub fn ref_count(&self, id: FileId) -> (r: u64)
        requires
            self.wf(),
        ensures
            r as nat == refs(self.descriptors(), id),
    {
        assert(count_of(self.ref_counts(), id) == refs(self.descriptors(), id));
        self.counts.count(id)
    }

    /// Whether a duplication of `src` needs the identity of the new
    /// descriptor resolved: exactly when `src` is not tracked.
    pub fn needs_resolution(&self, src: i32) -> (r: bool)
        ensures
            r == !self.descriptors().contains_key(src),
    {
        self.fds.lookup(src).is_none()
    }

    /// Untracks `fd`, dropping its reference; returns the identity whose
    /// last reference that was.
    fn detach(&mut self, fd: i32) -> (r: Option<FileId>)
        requires
            old(self).wf(),
        ensures
            final(self).wf(),
            final(self).descriptors() == old(self).descriptors().remove(fd),
            released(old(self).descriptors(), final(self).descriptors(), r),
    {
        let ghost before = self.descriptors();
        proof {
            lemma_refs_remove(before, fd);
        }
        match self.fds.unbind(fd) {
            None => {
                assert(self.descriptors() =~= before);
                assert forall|x: FileId| #[trigger]
                    count_of(self.ref_counts(), x) == refs(self.descriptors(), x) by {
                    assert(count_of(old(self).ref_counts(), x) == refs(before, x));
                }
                None
            },
            Some(j) => {
                assert(self.descriptors() == before.remove(fd));
                assert(refs(before.remove(fd), j) == refs(before, j) - 1);
                assert(count_of(old(self).ref_counts(), j) == refs(before, j));
                proof {
                    self.counts.lemma_wf_counts(j);
                }
                let r = match self.counts.decrement(j) {
                    Ok(n) => if n == 0 {
                        Some(j)
                    } else {
                        None
                    },
                    // The counts agree with the descriptor table, so the
                    // dropped reference was always counted.
                    Err(_) => None,
                };
                assert forall|x: FileId| #[trigger]
                    count_of(self.ref_counts(), x) == refs(self.descriptors(), x) by {
                    assert(count_of(old(self).ref_counts(), x) == refs(before, x));
                }
                assert forall|x: FileId| #[trigger]
                    refs(self.descriptors(), x) == refs(before, x) - (if x == j {
                        1int
                    } else {
                        0int
                    }) by {
                    assert(refs(before.remove(fd), x) == refs(before, x) - (if x == j {
                        1int
                    } else {
                        0int
                    }));
                }
                assert(count_of(self.ref_counts(), j) == refs(self.descriptors(), j));
                r
            },
        }
    }

    /// Binds `fd` to `id` and counts the reference, after dropping the
    /// reference `fd` held to another identity; returns the identity whose
    /// last reference that was.
    fn attach(&mut self, fd: i32, id: FileId) -> (r: Option<FileId>)
        requires
            old(self).wf(),
        ensures
            final(self).wf(),
            final(self).descriptors() == old(self).descriptors().insert(fd, id),
            released(old(self).descriptors(), final(self).descriptors(), r),
    {
        let ghost before = self.descriptors();
        if let Some(cur) = self.fds.lookup(fd) {
            if cur == id {
                assert(before.insert(fd, id) =~= before);
                return None;
            }
        }
        let r = self.detach(fd);
        let ghost mid = self.descriptors();
        let ghost mid_counts = self.ref_counts();
        self.fds.bind(fd, id);
        let total = self.fds.len();
        proof {
            lemma_refs_insert(mid, fd, id);
            assert(mid.remove(fd) =~= mid);
            assert(mid.insert(fd, id) =~= before.insert(fd, id));
            assert(self.descriptors() == mid.insert(fd, id));
            lemma_holders_finite(self.descriptors(), id);
            assert(refs(mid.insert(fd, id), id) == refs(mid, id) + 1);
            assert(count_of(self.ref_counts(), id) == refs(mid, id));
        }
        self.counts.increment(id);
        assert forall|x: FileId| #[trigger]
            count_of(self.ref_counts(), x) == refs(self.descriptors(), x) by {
            assert(count_of(mid_counts, x) == refs(mid, x));
            assert(refs(mid.insert(fd, id), x) == refs(mid.remove(fd), x) + (if x == id { 1int } else { 0int }));
        }
        proof {
            lemma_refs_remove(before, fd);
        }
        r
    }

    /// Untracks a descriptor that was closed. Returns the identity whose last
    /// tracked reference it was, for the lifecycle notification; a descriptor
    /// that was not tracked changes nothing.
    pub fn record_close(&mut self, fd: i32) -> (r: Option<FileId>)
        requires
            old(self).wf(),
        ensures
            final(self).wf(),
            final(self).descriptors() == old(self).descriptors().remove(fd),
            released(old(self).descriptors(), final(self).descriptors(), r),
    {
        self.detach(fd)
    }

    /// Records that `src` was duplicated into `new`. A tracked `src` lends
    /// its identity to `new`; an untracked `src` is adopted under `resolved`,
    /// the identity resolved for `new`, together with `new`; with neither,
    /// `new` is left untracked. Returns the identity whose last tracked
    /// reference `new` held before, if that went away.
    pub fn record_dup(&mut self, src: i32, new: i32, resolved: Option<FileId>) -> (r: Option<
        FileId,
    >)
        requires
            old(self).wf(),
        ensures
            final(self).wf(),
            final(self).descriptors() == after_dup(old(self).descriptors(), src, new, resolved),
            released(old(self).descriptors(), final(self).descriptors(), r),
    {
        let ghost before = self.descriptors();
        match self.fds.lookup(src) {
            Some(id) => {
                assert(before.insert(src, id) =~= before);
                self.attach(new, id)
            },
            None => match resolved {
                Some(id) => {
                    self.attach(src, id);
                    let ghost mid = self.descriptors();
                    proof {
                        lemma_refs_insert(before, src, id);
                        assert(before.remove(src) =~= before);
                        lemma_refs_remove(mid, new);
                        lemma_refs_insert(mid, new, id);
                    }
                    let r = self.attach(new, id);
                    proof {
                        lemma_refs_positive(self.descriptors(), id);
                        assert(self.descriptors().contains_key(new));
                        assert forall|x: FileId| #[trigger] refs(mid, x) == refs(before, x) + (
                        if x == id {
                            1int
                        } else {
                            0int
                        }) by {
                            assert(refs(before.insert(src, id), x) == refs(before.remove(src), x)
                                + (if x == id {
                                1int
                            } else {
                                0int
                            }));
                        }
                    }
                    r
                },
                None => self.detach(new),
            },
        }
    }

    /// Records the outcome `ret` of closing `fd`: a close that failed (-1)
    /// changes nothing; one that succeeded untracks `fd` as `record_close`
    /// does.
    pub fn after_close(&mut self, fd: i32, ret: i32) -> (r: Option<FileId>)
        requires
            old(self).wf(),
        ensures
            final(self).wf(),
            ret == -1 ==> final(self).descriptors() == old(self).descriptors() && r is None,
            ret != -1 ==> final(self).descriptors() == old(self).descriptors().remove(fd),
            released(old(self).descriptors(), final(self).descriptors(), r),
    {
        if ret != -1 {
            self.record_close(fd)
        } else {
            None
        }
    }

    /// Records the outcome `ret` of duplicating `src` into the lowest free
    /// descriptor: a negative `ret` is a failure and changes nothing; any
    /// other is the new descriptor, recorded as `record_dup` does.
    pub fn after_dup(&mut self, src: i32, ret: i32, resolved: Option<FileId>) -> (r: Option<
        FileId,
    >)
        requires
            old(self).wf(),
        ensures
            final(self).wf(),
            final(self).descriptors() == dup_outcome(old(self).descriptors(), src, ret, resolved),
            ret < 0 ==> r is None,
            released(old(self).descriptors(), final(self).descriptors(), r),
    {
        if ret >= 0 {
            self.record_dup(src, ret, resolved)
        } else {
            None
        }
    }

    /// Records the outcome `ret` of duplicating `src` into the chosen
    /// descriptor `new`: -1 is a failure and changes nothing; any other
    /// outcome is recorded as `record_dup` does.
    pub fn after_dup_into(
        &mut self,
        src: i32,
        new: i32,
        ret: i32,
        resolved: Option<FileId>,
    ) -> (r: Option<FileId>)
        requires
            old(self).wf(),
        ensures
            final(self).wf(),
            ret == -1 ==> final(self).descriptors() == old(self).descriptors() && r is None,
            ret != -1 ==> final(self).descriptors() == after_dup(
                old(self).descriptors(),
                src,
                new,
                resolved,
            ),
            released(old(self).descriptors(), final(self).descriptors(), r),
    {
        if ret != -1 {
            self.record_dup(src, new, resolved)
        } else {
            None
        }
    }

    /// Records the outcome `ret` of a control operation on `fd`. Only a
    /// duplicating operation is tracked, and exactly as a duplication of `fd`
    /// into the lowest free descriptor; any other leaves the tracker as it was.
    pub fn after_fcntl(
        &mut self,
        fd: i32,
        duplicating: bool,
        ret: i32,
        resolved: Option<FileId>,
    ) -> (r: Option<FileId>)
        requires
            old(self).wf(),
        ensures
            final(self).wf(),
            final(self).descriptors() == fcntl_outcome(
                old(self).descriptors(),
                fd,
                duplicating,
                ret,
                resolved,
            ),
            !duplicating ==> r is None,
            released(old(self).descriptors(), final(self).descriptors(), r),
    {
        if duplicating {
            self.after_dup(fd, ret, resolved)
        } else {
            None
        }
    }
}

} // verus!
