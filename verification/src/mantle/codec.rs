//! The pieces that the binary encoding of operations is made of: little-endian
//! integers, 32-byte strings and lists of them.
//!
//! A `take_..` specification function says what is read off the front of some
//! bytes and which bytes are left, or that the front is too short.

use vstd::prelude::*;

verus! {

/// The bytes do not start with an encoding.
#[derive(Debug, Clone, Copy, PartialEq, Eq, Structural)]
pub struct DecodeError;

/// The `width` lowest bytes of `n`, the lowest first.
pub open spec fn le_bytes(n: nat, width: nat) -> Seq<u8>
    decreases width,
{
    if width == 0 {
        Seq::empty()
    } else {
        seq![(n % 256) as u8] + le_bytes(n / 256, (width - 1) as nat)
    }
}

/// The number whose bytes are `bytes`, the lowest first.
pub open spec fn le_value(bytes: Seq<u8>) -> nat
    decreases bytes.len(),
{
    if bytes.len() == 0 {
        0
    } else {
        bytes[0] as nat + 256 * le_value(bytes.skip(1))
    }
}

/// How many numbers `width` bytes can tell apart.
pub open spec fn le_capacity(width: nat) -> nat
    decreases width,
{
    if width == 0 {
        1
    } else {
        256 * le_capacity((width - 1) as nat)
    }
}

pub proof fn lemma_le_capacities()
    ensures
        le_capacity(1) == 0x100,
        le_capacity(2) == 0x1_0000,
        le_capacity(4) == 0x1_0000_0000,
        le_capacity(8) == 0x1_0000_0000_0000_0000,
{
    reveal_with_fuel(le_capacity, 9);
}

/// A number below the capacity is read back from its bytes.
pub proof fn lemma_le_value_of_bytes(n: nat, width: nat)
    requires
        n < le_capacity(width),
    ensures
        le_bytes(n, width).len() == width,
        le_value(le_bytes(n, width)) == n,
    decreases width,
{
    if width > 0 {
        let rest = (width - 1) as nat;
        lemma_le_value_of_bytes(n / 256, rest);
        assert(le_bytes(n, width).skip(1) =~= le_bytes(n / 256, rest));
    }
}

pub proof fn lemma_le_bytes_len(n: nat, width: nat)
    ensures
        le_bytes(n, width).len() == width,
    decreases width,
{
    if width > 0 {
        lemma_le_bytes_len(n / 256, (width - 1) as nat);
    }
}

/// Bytes are given back by the number that they stand for, which is below the
/// capacity.
pub proof fn lemma_le_bytes_of_value(bytes: Seq<u8>)
    ensures
        le_value(bytes) < le_capacity(bytes.len()),
        le_bytes(le_value(bytes), bytes.len()) == bytes,
    decreases bytes.len(),
{
    if bytes.len() > 0 {
        let rest = bytes.skip(1);
        lemma_le_bytes_of_value(rest);
        let n = le_value(bytes);
        assert(n % 256 == bytes[0]);
        assert(n / 256 == le_value(rest));
        assert(le_bytes(n, bytes.len()) =~= bytes);
    } else {
        assert(le_bytes(0, 0) =~= bytes);
    }
}

proof fn lemma_le_capacity_monotone(a: nat, b: nat)
    requires
        a <= b,
    ensures
        0 < le_capacity(a) <= le_capacity(b),
    decreases b,
{
    if a < b {
        lemma_le_capacity_monotone(a, (b - 1) as nat);
    } else if a > 0 {
        lemma_le_capacity_monotone((a - 1) as nat, (a - 1) as nat);
    }
}

/// Appends the `width` lowest bytes of `n`.
pub fn push_le(bytes: &mut Vec<u8>, n: u64, width: usize)
    ensures
        final(bytes)@ == old(bytes)@ + le_bytes(n as nat, width as nat),
{
    let ghost start = bytes@;
    let mut left: u64 = n;
    let mut i: usize = 0;
    while i < width
        invariant
            i <= width,
            bytes@ + le_bytes(left as nat, (width - i) as nat) == start + le_bytes(
                n as nat,
                width as nat,
            ),
        decreases width - i,
    {
        let ghost before = bytes@;
        let low: u8 = (left % 256) as u8;
        bytes.push(low);
        proof {
            assert(le_bytes(left as nat, (width - i) as nat) == seq![low] + le_bytes(
                (left / 256) as nat,
                (width - i - 1) as nat,
            ));
            assert(before + (seq![low] + le_bytes((left / 256) as nat, (width - i - 1) as nat))
                =~= bytes@ + le_bytes((left / 256) as nat, (width - i - 1) as nat));
        }
        left = left / 256;
        i = i + 1;
    }
    assert(bytes@ + le_bytes(left as nat, 0) =~= bytes@);
}

/// The number in the `width` bytes from `at` on.
pub fn read_le(bytes: &[u8], at: usize, width: usize) -> (r: u64)
    requires
        at + width <= bytes@.len(),
        width <= 8,
    ensures
        r == le_value(bytes@.subrange(at as int, at + width)),
        r < le_capacity(width as nat),
{
    let total: usize = bytes.len();
    let mut n: u64 = 0;
    let mut i: usize = width;
    assert(bytes@.subrange(at + i, at + width) =~= Seq::<u8>::empty());
    while i > 0
        invariant
            i <= width <= 8,
            at + width <= bytes@.len() == total,
            n == le_value(bytes@.subrange(at + i, at + width)),
            n < le_capacity((width - i) as nat),
        decreases i,
    {
        proof {
            lemma_le_capacities();
            lemma_le_capacity_monotone((width - i + 1) as nat, 8);
            assert(le_capacity((width - i + 1) as nat) == 256 * le_capacity((width - i) as nat));
            let longer = bytes@.subrange(at + i - 1, at + width);
            assert(longer.skip(1) =~= bytes@.subrange(at + i, at + width));
            assert(longer[0] == bytes@[at + i - 1]);
        }
        i = i - 1;
        n = bytes[at + i] as u64 + 256 * n;
    }
    n
}

/// The 32-byte string with these bytes.
pub open spec fn array32(bytes: Seq<u8>) -> [u8; 32] {
    choose|array: [u8; 32]| array@ == bytes
}

proof fn lemma_array_prefix(bytes: Seq<u8>, n: int) -> (array: [u8; 32])
    requires
        bytes.len() == 32,
        0 <= n <= 32,
    ensures
        forall|i: int| 0 <= i < n ==> array@[i] == bytes[i],
    decreases n,
{
    broadcast use vstd::array::group_array_axioms;

    if n == 0 {
        array32(bytes)
    } else {
        let shorter = lemma_array_prefix(bytes, n - 1);
        vstd::array::spec_array_update(shorter, n - 1, bytes[n - 1])
    }
}

/// There is exactly one 32-byte string with given bytes.
pub proof fn lemma_array32(bytes: Seq<u8>)
    requires
        bytes.len() == 32,
    ensures
        array32(bytes)@ == bytes,
        forall|array: [u8; 32]| #[trigger] array@ == bytes ==> array == array32(bytes),
{
    let array = lemma_array_prefix(bytes, 32);
    assert(array@ =~= bytes);
    assert forall|other: [u8; 32]| #[trigger] other@ == bytes implies other == array32(bytes) by {
        assert(array32(bytes)@ == bytes);
        assert(other =~= array32(bytes));
    }
}

/// The 32 bytes from `at` on.
pub fn read_32(bytes: &[u8], at: usize) -> (r: [u8; 32])
    requires
        at + 32 <= bytes@.len(),
    ensures
        r@ == bytes@.subrange(at as int, at + 32),
        r == array32(bytes@.subrange(at as int, at + 32)),
{
    let total: usize = bytes.len();
    let mut out: [u8; 32] = [0u8; 32];
    let mut i: usize = 0;
    while i < 32
        invariant
            i <= 32,
            at + 32 <= bytes@.len() == total,
            forall|j: int| 0 <= j < i ==> out@[j] == bytes@[at + j],
        decreases 32 - i,
    {
        out[i] = bytes[at + i];
        i = i + 1;
    }
    proof {
        assert(out@ =~= bytes@.subrange(at as int, at + 32));
        lemma_array32(bytes@.subrange(at as int, at + 32));
    }
    out
}

/// Appends a byte string.
pub fn push_bytes(bytes: &mut Vec<u8>, more: &[u8])
    ensures
        final(bytes)@ == old(bytes)@ + more@,
{
    let ghost start = bytes@;
    let mut i: usize = 0;
    assert(start + more@.take(0) =~= start);
    while i < more.len()
        invariant
            i <= more@.len(),
            bytes@ == start + more@.take(i as int),
        decreases more@.len() - i,
    {
        bytes.push(more[i]);
        i = i + 1;
        assert(start + more@.take(i as int) =~= (start + more@.take(i - 1)).push(more@[i - 1]));
    }
    assert(more@.take(more@.len() as int) =~= more@);
}

/// The 32-byte strings of a list, one behind the other.
pub open spec fn joined32(items: Seq<[u8; 32]>) -> Seq<u8> {
    Seq::new(32 * items.len(), |i: int| items[i / 32]@[i % 32])
}

/// Appends the 32-byte strings of a list.
pub fn push_all_32(bytes: &mut Vec<u8>, items: &[[u8; 32]])
    ensures
        final(bytes)@ == old(bytes)@ + joined32(items@),
{
    let ghost start = bytes@;
    let mut i: usize = 0;
    assert(start + joined32(items@.take(0)) =~= start);
    while i < items.len()
        invariant
            i <= items@.len(),
            bytes@ == start + joined32(items@.take(i as int)),
        decreases items@.len() - i,
    {
        push_bytes(bytes, items[i].as_slice());
        i = i + 1;
        proof {
            assert(joined32(items@.take(i as int)) =~= joined32(items@.take(i - 1)) + items@[i
                - 1]@);
            assert(bytes@ =~= start + joined32(items@.take(i as int)));
        }
    }
    assert(items@.take(items@.len() as int) =~= items@);
}

/// A number of `width` bytes off the front.
pub open spec fn take_le(bytes: Seq<u8>, width: nat) -> Option<(nat, Seq<u8>)> {
    if bytes.len() < width {
        None
    } else {
        Some((le_value(bytes.take(width as int)), bytes.skip(width as int)))
    }
}

/// A 32-byte string off the front.
pub open spec fn take_32(bytes: Seq<u8>) -> Option<([u8; 32], Seq<u8>)> {
    if bytes.len() < 32 {
        None
    } else {
        Some((array32(bytes.take(32)), bytes.skip(32)))
    }
}

/// `count` 32-byte strings off the front.
pub open spec fn take_list32(bytes: Seq<u8>, count: nat) -> Option<(Seq<[u8; 32]>, Seq<u8>)> {
    if bytes.len() < 32 * count {
        None
    } else {
        Some(
            (
                Seq::new(count, |i: int| array32(bytes.subrange(32 * i, 32 * i + 32))),
                bytes.skip(32 * count as int),
            ),
        )
    }
}

/// The `count` 32-byte strings from `at` on.
pub fn read_list32(bytes: &[u8], at: usize, count: usize) -> (r: Vec<[u8; 32]>)
    requires
        at + 32 * count <= bytes@.len(),
    ensures
        take_list32(bytes@.skip(at as int), count as nat) == Some(
            (r@, bytes@.skip(at + 32 * count)),
        ),
        r@.len() == count,
{
    let total: usize = bytes.len();
    let mut out: Vec<[u8; 32]> = Vec::new();
    let mut i: usize = 0;
    while i < count
        invariant
            i <= count,
            at + 32 * count <= bytes@.len() == total,
            out@.len() == i,
            forall|j: int|
                0 <= j < i ==> out@[j] == array32(
                    bytes@.subrange(at + 32 * j, at + 32 * j + 32),
                ),
        decreases count - i,
    {
        out.push(read_32(bytes, at + 32 * i));
        i = i + 1;
    }
    proof {
        let rest = bytes@.skip(at as int);
        let read = Seq::new(count as nat, |j: int| array32(rest.subrange(32 * j, 32 * j + 32)));
        assert forall|j: int| 0 <= j < count implies out@[j] == read[j] by {
            assert(rest.subrange(32 * j, 32 * j + 32) =~= bytes@.subrange(
                at + 32 * j,
                at + 32 * j + 32,
            ));
        }
        assert(out@ =~= read);
        assert(rest.skip(32 * count as int) =~= bytes@.skip(at + 32 * count));
    }
    out
}

/// `count` bytes off the front.
pub open spec fn take_bytes(bytes: Seq<u8>, count: nat) -> Option<(Seq<u8>, Seq<u8>)> {
    if bytes.len() < count {
        None
    } else {
        Some((bytes.take(count as int), bytes.skip(count as int)))
    }
}

/// Reads a number of `width` bytes off the front, and hands back what is left.
pub fn decode_le(bytes: &[u8], width: usize) -> (r: Option<(u64, &[u8])>)
    requires
        width <= 8,
    ensures
        match r {
            Some((n, rest)) => take_le(bytes@, width as nat) == Some((n as nat, rest@)) && n
                < le_capacity(width as nat),
            None => take_le(bytes@, width as nat) is None,
        },
{
    if bytes.len() < width {
        return None;
    }
    let n: u64 = read_le(bytes, 0, width);
    let rest = vstd::slice::slice_subrange(bytes, width, bytes.len());
    assert(bytes@.subrange(0, width as int) =~= bytes@.take(width as int));
    assert(rest@ =~= bytes@.skip(width as int));
    Some((n, rest))
}

/// Reads a 32-byte string off the front, and hands back what is left.
pub fn decode_32(bytes: &[u8]) -> (r: Option<([u8; 32], &[u8])>)
    ensures
        match r {
            Some((item, rest)) => take_32(bytes@) == Some((item, rest@)),
            None => take_32(bytes@) is None,
        },
{
    if bytes.len() < 32 {
        return None;
    }
    let item: [u8; 32] = read_32(bytes, 0);
    let rest = vstd::slice::slice_subrange(bytes, 32, bytes.len());
    assert(bytes@.subrange(0, 32) =~= bytes@.take(32));
    assert(rest@ =~= bytes@.skip(32));
    Some((item, rest))
}

/// Reads 32-byte strings off the front, and hands back what is left.
pub fn decode_list32(bytes: &[u8], count: usize) -> (r: Option<(Vec<[u8; 32]>, &[u8])>)
    ensures
        match r {
            Some((items, rest)) => take_list32(bytes@, count as nat) == Some((items@, rest@))
                && items@.len() == count,
            None => take_list32(bytes@, count as nat) is None,
        },
{
    let total: usize = bytes.len();
    if total / 32 < count {
        return None;
    }
    let items = read_list32(bytes, 0, count);
    let rest = vstd::slice::slice_subrange(bytes, 32 * count, total);
    assert(bytes@.skip(0) =~= bytes@);
    assert(rest@ =~= bytes@.skip(32 * count));
    Some((items, rest))
}

/// Reads bytes off the front, and hands back what is left.
pub fn decode_bytes(bytes: &[u8], count: usize) -> (r: Option<(Vec<u8>, &[u8])>)
    ensures
        match r {
            Some((items, rest)) => take_bytes(bytes@, count as nat) == Some((items@, rest@))
                && items@.len() == count,
            None => take_bytes(bytes@, count as nat) is None,
        },
{
    if bytes.len() < count {
        return None;
    }
    let mut items: Vec<u8> = Vec::new();
    push_bytes(&mut items, vstd::slice::slice_subrange(bytes, 0, count));
    let rest = vstd::slice::slice_subrange(bytes, count, bytes.len());
    assert(items@ =~= bytes@.take(count as int));
    assert(rest@ =~= bytes@.skip(count as int));
    Some((items, rest))
}

/// `accepts` can say yes to each of these 32-byte strings.
pub open spec fn all_accepted<A: Fn(&[u8; 32]) -> bool>(accepts: A, items: Seq<[u8; 32]>) -> bool {
    forall|i: int| 0 <= i < items.len() ==> call_ensures(accepts, (&#[trigger] items[i],), true)
}

/// `accepts` can say no to one of these 32-byte strings.
pub open spec fn some_refused<A: Fn(&[u8; 32]) -> bool>(accepts: A, items: Seq<[u8; 32]>) -> bool {
    exists|i: int| 0 <= i < items.len() && call_ensures(accepts, (&#[trigger] items[i],), false)
}

/// Whether `accepts` says yes to each of the 32-byte strings.
pub fn accept_all<A: Fn(&[u8; 32]) -> bool>(accepts: &A, items: &[[u8; 32]]) -> (r: bool)
    requires
        forall|item: &[u8; 32]| #[trigger] call_requires(*accepts, (item,)),
    ensures
        r ==> all_accepted(*accepts, items@),
        !r ==> some_refused(*accepts, items@),
{
    let mut i: usize = 0;
    while i < items.len()
        invariant
            i <= items@.len(),
            forall|item: &[u8; 32]| #[trigger] call_requires(*accepts, (item,)),
            forall|j: int| 0 <= j < i ==> call_ensures(*accepts, (&#[trigger] items@[j],), true),
        decreases items@.len() - i,
    {
        if !accepts(&items[i]) {
            assert(call_ensures(*accepts, (&items@[i as int],), false));
            return false;
        }
        i = i + 1;
    }
    true
}

/// Reading a number is the inverse of writing one.
pub proof fn lemma_take_le(bytes: Seq<u8>, width: nat, n: nat, rest: Seq<u8>)
    requires
        n < le_capacity(width),
    ensures
        take_le(bytes, width) == Some((n, rest)) <==> bytes == le_bytes(n, width) + rest,
{
    lemma_le_bytes_len(n, width);
    if bytes == le_bytes(n, width) + rest {
        lemma_le_value_of_bytes(n, width);
        assert(bytes.take(width as int) =~= le_bytes(n, width));
        assert(bytes.skip(width as int) =~= rest);
    }
    if take_le(bytes, width) == Some((n, rest)) {
        lemma_le_bytes_of_value(bytes.take(width as int));
        assert(bytes =~= le_bytes(n, width) + rest);
    }
}

/// What is read as a number of `width` bytes is below the capacity.
pub proof fn lemma_take_le_bound(bytes: Seq<u8>, width: nat)
    ensures
        take_le(bytes, width) matches Some((n, rest)) ==> n < le_capacity(width) && bytes
            == le_bytes(n, width) + rest,
{
    if let Some((n, rest)) = take_le(bytes, width) {
        lemma_le_bytes_of_value(bytes.take(width as int));
        assert(bytes =~= le_bytes(n, width) + rest);
    }
}

/// Reading a 32-byte string is the inverse of writing one.
pub proof fn lemma_take_32(bytes: Seq<u8>, item: [u8; 32], rest: Seq<u8>)
    ensures
        take_32(bytes) == Some((item, rest)) <==> bytes == item@ + rest,
{
    if bytes == item@ + rest {
        assert(bytes.take(32) =~= item@);
        lemma_array32(item@);
        assert(bytes.skip(32) =~= rest);
    }
    if take_32(bytes) == Some((item, rest)) {
        lemma_array32(bytes.take(32));
        assert(bytes =~= item@ + rest);
    }
}

/// Reading a list of 32-byte strings is the inverse of writing one.
pub proof fn lemma_take_list32(bytes: Seq<u8>, items: Seq<[u8; 32]>, rest: Seq<u8>)
    ensures
        take_list32(bytes, items.len()) == Some((items, rest)) <==> bytes == joined32(items) + rest,
{
    let count = items.len();
    if bytes == joined32(items) + rest {
        let read = Seq::new(count, |i: int| array32(bytes.subrange(32 * i, 32 * i + 32)));
        assert forall|i: int| 0 <= i < count implies read[i] == items[i] by {
            assert forall|j: int| 0 <= j < 32 implies bytes[32 * i + j] == items[i]@[j] by {
                assert((32 * i + j) / 32 == i);
                assert((32 * i + j) % 32 == j);
            }
            assert(bytes.subrange(32 * i, 32 * i + 32) =~= items[i]@);
            lemma_array32(items[i]@);
        }
        assert(read =~= items);
        assert(bytes.skip(32 * count as int) =~= rest);
    }
    if take_list32(bytes, count) == Some((items, rest)) {
        assert forall|k: int| 0 <= k < 32 * count implies bytes[k] == joined32(items)[k] by {
            let i = k / 32;
            let piece = bytes.subrange(32 * i, 32 * i + 32);
            lemma_array32(piece);
            assert(items[i]@ == piece);
            assert(piece[k % 32] == bytes[k]);
        }
        assert(bytes =~= joined32(items) + rest);
    }
}

/// It does not matter which two of three byte strings are joined first.
pub proof fn lemma_joins(a: Seq<u8>, b: Seq<u8>, c: Seq<u8>)
    ensures
        a + b + c == a + (b + c),
{
    assert(a + b + c =~= a + (b + c));
}

/// Reading bytes is the inverse of writing them.
pub proof fn lemma_take_bytes(bytes: Seq<u8>, items: Seq<u8>, rest: Seq<u8>)
    ensures
        take_bytes(bytes, items.len()) == Some((items, rest)) <==> bytes == items + rest,
{
    if bytes == items + rest {
        assert(bytes.take(items.len() as int) =~= items);
        assert(bytes.skip(items.len() as int) =~= rest);
    }
    if take_bytes(bytes, items.len()) == Some((items, rest)) {
        assert(bytes =~= items + rest);
    }
}

} // verus!
