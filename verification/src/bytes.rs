//! Reading pieces of byte strings.
use vstd::bytes::*;
use vstd::prelude::*;
use vstd::slice::*;

verus! {

/// Reads the 32 bytes that begin at `at`.
pub fn digest_at(bytes: &[u8], at: usize) -> (digest: [u8; 32])
    requires
        at + 32 <= bytes@.len(),
    ensures
        digest@ == bytes@.subrange(at as int, at + 32),
{
    let mut digest: [u8; 32] = [0u8; 32];
    let mut i: usize = 0;
    let len: usize = bytes.len();
    while i < 32
        invariant
            i <= 32,
            len == bytes@.len(),
            at + 32 <= len,
            forall|j: int| 0 <= j < i ==> digest@[j] == bytes@[at + j],
        decreases 32 - i,
    {
        digest[i] = bytes[at + i];
        i += 1;
    }
    assert(digest@ =~= bytes@.subrange(at as int, at + 32));
    digest
}

/// Reads the eight little-endian bytes that begin at `at`.
pub fn number_at(bytes: &[u8], at: usize) -> (n: u64)
    requires
        at + 8 <= bytes@.len(),
    ensures
        n == spec_u64_from_le_bytes(bytes@.subrange(at as int, at + 8)),
{
    let len: usize = bytes.len();
    assert(at + 8 <= len);
    u64_from_le_bytes(slice_subrange(bytes, at, at + 8))
}

/// Whether two digests are the same.
pub fn same_digest(a: &[u8; 32], b: &[u8; 32]) -> (res: bool)
    ensures
        res == (a@ == b@),
{
    let mut i: usize = 0;
    while i < 32
        invariant
            i <= 32,
            forall|j: int| 0 <= j < i ==> a@[j] == b@[j],
        decreases 32 - i,
    {
        if a[i] != b[i] {
            return false;
        }
        i += 1;
    }
    assert(a@ =~= b@);
    true
}

/// The place of the first zero byte from `from` on; the length where there is
/// none.
pub open spec fn zero_from(bytes: Seq<u8>, from: int) -> int
    decreases bytes.len() - from,
{
    if from >= bytes.len() {
        bytes.len() as int
    } else if bytes[from] == 0 {
        from
    } else {
        zero_from(bytes, from + 1)
    }
}

/// What the place of the first zero byte is: there is none before it, and one
/// at it, unless it is the end.
pub proof fn first_zero_is_first(bytes: Seq<u8>, from: int)
    requires
        0 <= from <= bytes.len(),
    ensures
        from <= zero_from(bytes, from) <= bytes.len(),
        forall|i: int| from <= i < zero_from(bytes, from) ==> #[trigger] bytes[i] != 0,
        zero_from(bytes, from) < bytes.len() ==> bytes[zero_from(bytes, from)] == 0,
    decreases bytes.len() - from,
{
    if from < bytes.len() && bytes[from] != 0 {
        first_zero_is_first(bytes, from + 1);
    }
}

/// A zero byte with none before it is the first.
pub proof fn lemma_zero_at(bytes: Seq<u8>, from: int, at: int)
    requires
        0 <= from <= at <= bytes.len(),
        forall|i: int| from <= i < at ==> #[trigger] bytes[i] != 0,
        at < bytes.len() ==> bytes[at] == 0,
    ensures
        zero_from(bytes, from) == at,
    decreases at - from,
{
    if from < at {
        assert(bytes[from] != 0);
        lemma_zero_at(bytes, from + 1, at);
    }
}

/// Finds the first zero byte from `from` on.
pub fn find_zero(bytes: &[u8], from: usize) -> (res: usize)
    requires
        from <= bytes@.len(),
    ensures
        res == zero_from(bytes@, from as int),
        from <= res <= bytes@.len(),
{
    let mut i: usize = from;
    while i < bytes.len()
        invariant
            from <= i <= bytes@.len(),
            zero_from(bytes@, from as int) == zero_from(bytes@, i as int),
        decreases bytes@.len() - i,
    {
        if bytes[i] == 0 {
            return i;
        }
        i += 1;
    }
    i
}

/// Copies the bytes from `from` up to `to`.
pub fn copy_range(bytes: &[u8], from: usize, to: usize) -> (res: Vec<u8>)
    requires
        from <= to <= bytes@.len(),
    ensures
        res@ == bytes@.subrange(from as int, to as int),
{
    slice_to_vec(slice_subrange(bytes, from, to))
}

} // verus!
