use vstd::prelude::*;

verus! {

/// Number of distinct inode numbers: the factor that separates the device
/// part of a packed identity key from its inode part.
pub const INODE_SPAN: u128 = 0x1_0000_0000_0000_0000;

/// The canonical identity of an open file: its device and inode numbers.
/// Two descriptors refer to the same file exactly when their identities are
/// equal.
#[derive(Clone, Copy, Debug, PartialEq, Eq, Hash, Structural)]
pub struct FileId {
    pub dev: u64,
    pub ino: u64,
}

impl FileId {
    /// The key under which this identity is filed in a table keyed by integers.
    pub open spec fn spec_key(self) -> u128 {
        (self.dev as int * INODE_SPAN as int + self.ino as int) as u128
    }

    /// Builds the identity of a file from the device and inode numbers that
    /// the metadata query reported for it.
    pub fn from_stat(dev: u64, ino: u64) -> (r: FileId)
        ensures
            r.dev == dev,
            r.ino == ino,
    {
        FileId { dev, ino }
    }

    /// Packs the identity into one integer; distinct identities get distinct keys.
    pub fn key(&self) -> (r: u128)
        ensures
            r == self.spec_key(),
            r as int == self.dev as int * INODE_SPAN as int + self.ino as int,
    {
        proof {
            lemma_key_fits(*self);
        }
        (self.dev as u128) * INODE_SPAN + (self.ino as u128)
    }
}

proof fn lemma_key_fits(id: FileId)
    ensures
        0 <= id.dev as int * INODE_SPAN as int + id.ino as int <= u128::MAX as int,
{
    let d = id.dev as int;
    let i = id.ino as int;
    assert(0 <= d * 0x1_0000_0000_0000_0000 + i <= 0xffff_ffff_ffff_ffff_ffff_ffff_ffff_ffff)
        by (nonlinear_arith)
        requires
            0 <= d <= 0xffff_ffff_ffff_ffff,
            0 <= i <= 0xffff_ffff_ffff_ffff,
    ;
}

/// Distinct identities have distinct keys.
pub proof fn lemma_key_injective(a: FileId, b: FileId)
    ensures
        a.spec_key() == b.spec_key() <==> a == b,
{
    lemma_key_fits(a);
    lemma_key_fits(b);
    let (da, ia, db, ib) = (a.dev as int, a.ino as int, b.dev as int, b.ino as int);
    if a.spec_key() == b.spec_key() {
        assert(da == db && ia == ib) by (nonlinear_arith)
            requires
                0 <= ia <= 0xffff_ffff_ffff_ffff,
                0 <= ib <= 0xffff_ffff_ffff_ffff,
                da * 0x1_0000_0000_0000_0000 + ia == db * 0x1_0000_0000_0000_0000 + ib,
        ;
    }
}

} // verus!
