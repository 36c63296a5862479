//! Sets of digests, held by `hashbrown`.
use vstd::prelude::*;

verus! {

/// A `hashbrown::HashSet` of digests.
#[verifier::external_body]
pub struct DigestSet {
    inner: hashbrown::HashSet<[u8; 32]>,
}

/// The digests in a set.
pub uninterp spec fn digests(set: DigestSet) -> Set<[u8; 32]>;

/// Calls `hashbrown::HashSet::new`, which makes an empty set.
#[verifier::external_body]
pub(crate) fn empty_set() -> (set: DigestSet)
    ensures
        digests(set) == Set::<[u8; 32]>::empty(),
{
    DigestSet { inner: hashbrown::HashSet::new() }
}

/// Calls `hashbrown::HashSet::insert`, which adds a digest and says whether it
/// was new.
#[verifier::external_body]
pub(crate) fn insert(set: &mut DigestSet, digest: [u8; 32]) -> (new: bool)
    ensures
        digests(*final(set)) == digests(*old(set)).insert(digest),
        new == !digests(*old(set)).contains(digest),
{
    set.inner.insert(digest)
}

/// Calls `hashbrown::HashSet::contains`.
#[verifier::external_body]
pub(crate) fn contains(set: &DigestSet, digest: &[u8; 32]) -> (res: bool)
    ensures
        res == digests(*set).contains(*digest),
{
    set.inner.contains(digest)
}

impl DigestSet {
    /// Whether the set holds `digest`.
    pub fn has(&self, digest: &[u8; 32]) -> (res: bool)
        ensures
            res == digests(*self).contains(*digest),
    {
        contains(self, digest)
    }
}

} // verus!
