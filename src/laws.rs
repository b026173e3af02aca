use vstd::prelude::*;

use crate::identity::FileId;
use crate::ref_counts::count_of;
use crate::refs::{lemma_refs_insert, lemma_refs_positive, lemma_refs_remove, refs};
use crate::tracker::{after_dup, dup_identity, dup_outcome, fcntl_outcome, released, Tracker};

verus! {

/// In every state that the tracker reaches, the count it keeps for a file is
/// the number of tracked descriptors that refer to that file.
pub proof fn lemma_count_is_descriptor_count(t: &Tracker, id: FileId)
    requires
        t.wf(),
    ensures
        count_of(t.ref_counts(), id) == refs(t.descriptors(), id),
{
}

/// A release names a file whose count was positive before the step and is
/// zero after it.
pub proof fn lemma_release_at_zero(
    before: Map<i32, FileId>,
    after: Map<i32, FileId>,
    id: FileId,
)
    requires
        released(before, after, Some(id)),
    ensures
        refs(before, id) > 0,
        refs(after, id) == 0,
{
}

/// Once a file has been released, the next step cannot release it again: it
/// must first be referenced anew.
pub proof fn lemma_release_once(
    s0: Map<i32, FileId>,
    s1: Map<i32, FileId>,
    s2: Map<i32, FileId>,
    id: FileId,
    r: Option<FileId>,
)
    requires
        released(s0, s1, Some(id)),
        released(s1, s2, r),
    ensures
        r != Some(id),
{
}

/// Closing a descriptor that is not tracked changes nothing and releases no
/// file.
pub proof fn lemma_close_untracked(fds: Map<i32, FileId>, fd: i32, r: Option<FileId>)
    requires
        !fds.contains_key(fd),
        released(fds, fds.remove(fd), r),
    ensures
        fds.remove(fd) == fds,
        r is None,
{
    assert(fds.remove(fd) =~= fds);
    if let Some(id) = r {
        assert(refs(fds, id) > 0 && refs(fds, id) == 0);
    }
}

/// Duplicating an untracked `a` into `b`, then `b` into `c`, and closing `a`
/// and `b`, leaves `c` the only tracked descriptor of the identity that was
/// resolved for the first duplication.
pub proof fn lemma_dup_chain(
    fds: Map<i32, FileId>,
    a: i32,
    b: i32,
    c: i32,
    id: FileId,
    resolved: Option<FileId>,
)
    requires
        fds.dom().finite(),
        a != b,
        b != c,
        a != c,
        !fds.contains_key(a),
        refs(fds, id) == 0,
    ensures
        ({
            let s1 = after_dup(fds, a, b, Some(id));
            let s2 = after_dup(s1, b, c, resolved);
            let s4 = s2.remove(a).remove(b);
            &&& s4.contains_key(c)
            &&& s4[c] == id
            &&& refs(s4, id) == 1
        }),
{
    let x = fds.insert(a, id);
    let s1 = x.insert(b, id);
    let y = s1.insert(b, id);
    let s2 = y.insert(c, id);
    let s3 = s2.remove(a);
    let s4 = s3.remove(b);
    assert(after_dup(fds, a, b, Some(id)) == s1);
    assert(after_dup(s1, b, c, resolved) == s2);
    lemma_refs_positive(fds, id);
    lemma_refs_insert(fds, a, id);
    assert(fds.remove(a) =~= fds);
    lemma_refs_remove(x, b);
    lemma_refs_insert(x, b, id);
    assert(refs(x, id) == 1);
    assert(!(x.contains_key(b) && x[b] == id));
    assert(refs(s1, id) == 2);
    assert(y =~= s1);
    lemma_refs_remove(y, c);
    lemma_refs_insert(y, c, id);
    assert(!(y.contains_key(c) && y[c] == id));
    assert(refs(s2, id) == 3);
    lemma_refs_remove(s2, a);
    lemma_refs_remove(s3, b);
    assert(refs(s4, id) == 1);
}

/// A duplicating control operation is tracked exactly as an explicit
/// duplication of the same pair of descriptors.
pub proof fn lemma_fcntl_dup_is_dup(
    fds: Map<i32, FileId>,
    fd: i32,
    ret: i32,
    resolved: Option<FileId>,
)
    ensures
        fcntl_outcome(fds, fd, true, ret, resolved) == dup_outcome(fds, fd, ret, resolved),
{
}

/// A duplication that neither carries `other` nor overwrites a descriptor of
/// `other` leaves the count of `other` as it was.
pub proof fn lemma_dup_leaves_other_files(
    fds: Map<i32, FileId>,
    src: i32,
    new: i32,
    resolved: Option<FileId>,
    other: FileId,
)
    requires
        fds.dom().finite(),
        dup_identity(fds, src, resolved) != Some(other),
        !(fds.contains_key(new) && fds[new] == other),
    ensures
        refs(after_dup(fds, src, new, resolved), other) == refs(fds, other),
{
    lemma_refs_remove(fds, new);
    if let Some(id) = dup_identity(fds, src, resolved) {
        let x = fds.insert(src, id);
        lemma_refs_insert(fds, src, id);
        lemma_refs_remove(fds, src);
        lemma_refs_insert(x, new, id);
        lemma_refs_remove(x, new);
    }
}

/// Closing a descriptor that does not refer to `other` leaves the count of
/// `other` as it was.
pub proof fn lemma_close_leaves_other_files(fds: Map<i32, FileId>, fd: i32, other: FileId)
    requires
        fds.dom().finite(),
        !(fds.contains_key(fd) && fds[fd] == other),
    ensures
        refs(fds.remove(fd), other) == refs(fds, other),
{
    lemma_refs_remove(fds, fd);
}

/// Duplications on two disjoint pairs of descriptors give the same tables in
/// either order, so their interleaving cannot matter.
pub proof fn lemma_disjoint_dups_commute(
    fds: Map<i32, FileId>,
    src1: i32,
    new1: i32,
    res1: Option<FileId>,
    src2: i32,
    new2: i32,
    res2: Option<FileId>,
)
    requires
        src1 != src2,
        src1 != new2,
        new1 != src2,
        new1 != new2,
    ensures
        after_dup(after_dup(fds, src1, new1, res1), src2, new2, res2) == after_dup(
            after_dup(fds, src2, new2, res2),
            src1,
            new1,
            res1,
        ),
{
    let a = after_dup(after_dup(fds, src1, new1, res1), src2, new2, res2);
    let b = after_dup(after_dup(fds, src2, new2, res2), src1, new1, res1);
    assert(a =~= b);
}

/// A duplication and a close on disjoint descriptors give the same tables in
/// either order.
pub proof fn lemma_dup_close_commute(
    fds: Map<i32, FileId>,
    src: i32,
    new: i32,
    resolved: Option<FileId>,
    fd: i32,
)
    requires
        fd != src,
        fd != new,
    ensures
        after_dup(fds, src, new, resolved).remove(fd) == after_dup(
            fds.remove(fd),
            src,
            new,
            resolved,
        ),
{
    assert(after_dup(fds, src, new, resolved).remove(fd) =~= after_dup(
        fds.remove(fd),
        src,
        new,
        resolved,
    ));
}

} // verus!
