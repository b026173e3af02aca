use vstd::prelude::*;
use vstd::set_lib::lemma_len_subset;

use crate::identity::FileId;

verus! {

/// The descriptors that a table binds to `id`.
pub open spec fn holders(fds: Map<i32, FileId>, id: FileId) -> Set<i32> {
    fds.dom().filter(|fd: i32| fds[fd] == id)
}

/// The number of descriptors that a table binds to `id`.
pub open spec fn refs(fds: Map<i32, FileId>, id: FileId) -> nat {
    holders(fds, id).len()
}

/// The holders of an identity are finitely many, and no more than the
/// table's descriptors.
pub proof fn lemma_holders_finite(fds: Map<i32, FileId>, id: FileId)
    requires
        fds.dom().finite(),
    ensures
        holders(fds, id).finite(),
        refs(fds, id) <= fds.dom().len(),
{
    lemma_len_subset(holders(fds, id), fds.dom());
}

/// An identity has references exactly when some descriptor is bound to it.
pub proof fn lemma_refs_positive(fds: Map<i32, FileId>, id: FileId)
    requires
        fds.dom().finite(),
    ensures
        refs(fds, id) > 0 <==> exists|fd: i32| fds.contains_key(fd) && fds[fd] == id,
{
    lemma_holders_finite(fds, id);
    if exists|fd: i32| fds.contains_key(fd) && fds[fd] == id {
        let fd = choose|fd: i32| fds.contains_key(fd) && fds[fd] == id;
        assert(holders(fds, id).contains(fd));
    }
    if refs(fds, id) > 0 {
        let fd = holders(fds, id).choose();
        assert(holders(fds, id).contains(fd));
    }
}

/// Removing a descriptor drops one reference from the identity it was bound
/// to, and no other.
pub proof fn lemma_refs_remove(fds: Map<i32, FileId>, fd: i32)
    requires
        fds.dom().finite(),
    ensures
        fds.remove(fd).dom().finite(),
        forall|x: FileId| #[trigger]
            refs(fds.remove(fd), x) == refs(fds, x) - (if fds.contains_key(fd) && fds[fd] == x {
                1int
            } else {
                0int
            }),
{
    assert forall|x: FileId| #[trigger]
        refs(fds.remove(fd), x) == refs(fds, x) - (if fds.contains_key(fd) && fds[fd] == x {
            1int
        } else {
            0int
        }) by {
        lemma_holders_finite(fds, x);
        assert(holders(fds.remove(fd), x) =~= holders(fds, x).remove(fd));
    }
}

/// Binding a descriptor to `id` adds one reference to `id`, after whatever
/// it was bound to before has lost its reference.
pub proof fn lemma_refs_insert(fds: Map<i32, FileId>, fd: i32, id: FileId)
    requires
        fds.dom().finite(),
    ensures
        fds.insert(fd, id).dom().finite(),
        forall|x: FileId| #[trigger]
            refs(fds.insert(fd, id), x) == refs(fds.remove(fd), x) + (if x == id {
                1int
            } else {
                0int
            }),
{
    let rest = fds.remove(fd);
    assert forall|x: FileId| #[trigger]
        refs(fds.insert(fd, id), x) == refs(rest, x) + (if x == id {
            1int
        } else {
            0int
        }) by {
        lemma_holders_finite(rest, x);
        assert(!holders(rest, x).contains(fd));
        if x == id {
            assert(holders(fds.insert(fd, id), x) =~= holders(rest, x).insert(fd));
        } else {
            assert(holders(fds.insert(fd, id), x) =~= holders(rest, x));
        }
    }
}

} // verus!
