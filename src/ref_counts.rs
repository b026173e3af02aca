use std::collections::HashMap;
use vstd::prelude::*;

use crate::identity::{FileId, lemma_key_injective};

verus! {

broadcast use vstd::std_specs::hash::group_hash_axioms;

/// The count that a table of counts holds for `id`; zero where it holds none.
pub open spec fn count_of(counts: Map<FileId, nat>, id: FileId) -> nat {
    if counts.contains_key(id) {
        counts[id]
    } else {
        0
    }
}

/// Why a reference could not be dropped.
#[derive(Clone, Copy, Debug, PartialEq, Eq, Structural)]
pub enum CountFault {
    /// The identity had no counted reference to drop.
    NoReferences,
}

/// Maps each identity that has tracked references to the number of them.
/// An identity whose count reaches zero leaves the table.
pub struct RefCountTable {
    counts: HashMap<u128, u64>,
}

impl View for RefCountTable {
    type V = Map<FileId, nat>;

    closed spec fn view(&self) -> Map<FileId, nat> {
        Map::new(
            |id: FileId| self.counts@.contains_key(id.spec_key()),
            |id: FileId| self.counts@[id.spec_key()] as nat,
        )
    }
}

impl RefCountTable {
    /// Every identity in the table has at least one reference, and its count
    /// fits the counter.
    pub closed spec fn wf(&self) -> bool {
        forall|k: u128| #[trigger] self.counts@.contains_key(k) ==> self.counts@[k] > 0
    }

    /// What the table holds for an identity fits the counter, and is
    /// never zero.
    pub proof fn lemma_wf_counts(&self, id: FileId)
        requires
            self.wf(),
        ensures
            count_of(self@, id) <= u64::MAX,
            self@.contains_key(id) ==> self@[id] > 0,
    {
        if self@.contains_key(id) {
            assert(self.counts@.contains_key(id.spec_key()));
        }
    }

    /// An empty table.
    pub fn new() -> (r: RefCountTable)
        ensures
            r.wf(),
            r@ == Map::<FileId, nat>::empty(),
    {
        let r = RefCountTable { counts: HashMap::new() };
        assert(r@ =~= Map::<FileId, nat>::empty());
        r
    }

    /// The number of references counted for `id`.
    pub fn count(&self, id: FileId) -> (r: u64)
        ensures
            r as nat == count_of(self@, id),
    {
        match self.counts.get(&id.key()) {
            Some(c) => *c,
            None => 0,
        }
    }

    /// Counts one more reference to `id`; an unseen identity starts at one.
    /// Returns the new count.
    pub fn increment(&mut self, id: FileId) -> (r: u64)
        requires
            old(self).wf(),
            count_of(old(self)@, id) < u64::MAX,
        ensures
            final(self).wf(),
            r as nat == count_of(old(self)@, id) + 1,
            final(self)@ == old(self)@.insert(id, r as nat),
    {
        let c = self.count(id);
        let n = c + 1;
        self.counts.insert(id.key(), n);
        proof {
            assert forall|other: FileId| other.spec_key() == id.spec_key() implies other == id by {
                lemma_key_injective(other, id);
            }
        }
        assert(self@ =~= old(self)@.insert(id, n as nat));
        n
    }

    /// Drops one reference to `id` and returns the remaining count; an
    /// identity left with none leaves the table. Dropping a reference that
    /// was never counted is a fault, and changes nothing.
    pub fn decrement(&mut self, id: FileId) -> (r: Result<u64, CountFault>)
        requires
            old(self).wf(),
        ensures
            final(self).wf(),
            count_of(old(self)@, id) == 0 ==> r == Err::<u64, CountFault>(
                CountFault::NoReferences,
            ) && final(self)@ == old(self)@,
            count_of(old(self)@, id) > 0 ==> r == Ok::<u64, CountFault>(
                (count_of(old(self)@, id) - 1) as u64,
            ),
            count_of(old(self)@, id) == 1 ==> final(self)@ == old(self)@.remove(id),
            count_of(old(self)@, id) > 1 ==> final(self)@ == old(self)@.insert(
                id,
                (count_of(old(self)@, id) - 1) as nat,
            ),
    {
        let c = self.count(id);
        if c == 0 {
            return Err(CountFault::NoReferences);
        }
        proof {
            assert forall|other: FileId| other.spec_key() == id.spec_key() implies other == id by {
                lemma_key_injective(other, id);
            }
        }
        let n = c - 1;
        if n == 0 {
            self.counts.remove(&id.key());
            assert(self@ =~= old(self)@.remove(id));
        } else {
            self.counts.insert(id.key(), n);
            assert(self@ =~= old(self)@.insert(id, n as nat));
        }
        Ok(n)
    }
}

} // verus!
