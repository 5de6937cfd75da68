//! The chain's hash function, as the `blake2` crate computes it, and the
//! comparison of 32-byte strings.

use vstd::prelude::*;

verus! {

/// The unkeyed BLAKE2b digest of `data` with 32 bytes of output.
pub uninterp spec fn blake2b_256(data: Seq<u8>) -> [u8; 32];

/// `blake2::Blake2b::<U32>::digest`: the digest is a function of the data alone,
/// which [`blake2b_256`] names.
#[verifier::external_body]
pub(crate) fn blake2b(data: &[u8]) -> (r: [u8; 32])
    ensures
        r == blake2b_256(data@),
{
    <blake2::Blake2b<blake2::digest::consts::U32> as blake2::Digest>::digest(data).into()
}

/// Whether two 32-byte strings are the same.
pub fn same_bytes(a: &[u8; 32], b: &[u8; 32]) -> (r: bool)
    ensures
        r == (*a == *b),
{
    let mut i: usize = 0;
    while i < 32
        invariant
            i <= 32,
            forall|j: int| 0 <= j < i ==> a@[j] == b@[j],
        decreases 32 - i,
    {
        if a[i] != b[i] {
            return false;
        }
        i = i + 1;
    }
    assert(*a =~= *b);
    true
}

/// Whether `list` holds `item`.
pub fn holds_bytes(list: &[[u8; 32]], item: &[u8; 32]) -> (r: bool)
    ensures
        r == list@.contains(*item),
{
    let mut i: usize = 0;
    while i < list.len()
        invariant
            i <= list@.len(),
            forall|j: int| 0 <= j < i ==> list@[j] != *item,
        decreases list@.len() - i,
    {
        if same_bytes(&list[i], item) {
            assert(list@[i as int] == *item);
            return true;
        }
        i = i + 1;
    }
    false
}

/// A copy of `list`.
pub fn copy_bytes(list: &[[u8; 32]]) -> (r: Vec<[u8; 32]>)
    ensures
        r@ == list@,
{
    let mut copy: Vec<[u8; 32]> = Vec::new();
    let mut i: usize = 0;
    while i < list.len()
        invariant
            i <= list@.len(),
            copy@ == list@.take(i as int),
        decreases list@.len() - i,
    {
        copy.push(list[i]);
        assert(list@.take(i + 1) =~= list@.take(i as int).push(list@[i as int]));
        i = i + 1;
    }
    assert(list@.take(i as int) =~= list@);
    copy
}

} // verus!
