//! Collections with a cap, and hexadecimal text.

use logos_blockchain::utils::bounded::{BoundedBytes, BoundedError, BoundedVec};
use logos_blockchain::utils::hex::HexError;

#[test]
fn vectors_up_to_the_cap_are_taken() {
    let v = BoundedVec::<u8, 3>::new(vec![1, 2, 3]).unwrap();
    assert_eq!(v.len(), 3);
    assert!(!v.is_empty());
    assert_eq!(v.as_slice(), &[1, 2, 3]);
    assert_eq!(v.iter().copied().collect::<Vec<_>>(), vec![1, 2, 3]);
    assert_eq!(v.clone().into_inner(), vec![1, 2, 3]);
    assert_eq!(v[1], 2);
    let slice: &[u8] = v.as_ref();
    assert_eq!(slice, &[1, 2, 3]);
    assert_eq!((&v).into_iter().copied().collect::<Vec<_>>(), slice);
    assert_eq!(v.clone().into_iter().collect::<Vec<_>>(), slice);
    assert_eq!(
        BoundedVec::<u8, 3>::new(vec![0; 4]),
        Err(BoundedError::TooLong { actual: 4, max: 3 })
    );
    assert_eq!(
        BoundedVec::<u8, 3>::try_from(vec![0; 5]),
        Err(BoundedError::TooLong { actual: 5, max: 3 })
    );
    assert_eq!(BoundedVec::<u8, 3>::try_from(vec![1, 2, 3]), Ok(v));
    assert!(BoundedVec::<u8, 3>::default().is_empty());
    assert_eq!(BoundedVec::<u8, 3>::new_unchecked(vec![9]).as_slice(), &[9]);
}

#[test]
fn byte_strings_up_to_the_cap_are_taken() {
    let b = BoundedBytes::<2>::new(vec![7, 8]).unwrap();
    assert_eq!(b.len(), 2);
    assert_eq!(b.as_slice(), &[7, 8]);
    assert_eq!(b.clone().into_inner(), vec![7, 8]);
    assert_eq!(b[0], 7);
    let slice: &[u8] = b.as_ref();
    assert_eq!(slice, &[7, 8]);
    assert_eq!(
        BoundedBytes::<2>::new(vec![0; 3]),
        Err(BoundedError::TooLong { actual: 3, max: 2 })
    );
    assert_eq!(
        BoundedBytes::<2>::try_from(vec![0; 3]),
        Err(BoundedError::TooLong { actual: 3, max: 2 })
    );
    assert_eq!(BoundedBytes::<2>::try_from(vec![7, 8]), Ok(b));
    assert!(BoundedBytes::<2>::default().is_empty());
    assert_eq!(BoundedBytes::<2>::new_unchecked(vec![9]).as_slice(), &[9]);
}

#[test]
fn byte_strings_are_written_and_read_as_hexadecimal_text() {
    let b = BoundedBytes::<4>::new(vec![0, 0x1f, 0xa0, 0xff]).unwrap();
    assert_eq!(b.to_hex(), "001fa0ff");
    assert_eq!(BoundedBytes::<4>::from_hex("001fa0ff"), Ok(b.clone()));
    assert_eq!(BoundedBytes::<4>::from_hex("001FA0ff"), Ok(b.clone()));
    assert_eq!(BoundedBytes::<4>::from_hex("0x001fa0ff"), Ok(b));
    assert!(BoundedBytes::<4>::from_hex("1").is_err());
    assert!(BoundedBytes::<4>::from_hex("zz").is_err());
    let too_long: Result<BoundedBytes<1>, HexError> = BoundedBytes::<1>::from_hex("0102");
    assert!(too_long.is_err());
}
