//! Order statistics behind the median. Values are handled as `u64` order
//! keys: an IEEE-754 double's bit pattern maps to a key whose unsigned order
//! is the IEEE total order, so sorting keys sorts the values.

use vstd::prelude::*;
use vstd::relations::{sorted_by, total_ordering};

verus! {

/// The sign bit of a 64-bit pattern.
pub const SIGN_BIT: u64 = 0x8000_0000_0000_0000;

/// Ascending order on keys.
pub open spec fn key_le(a: u64, b: u64) -> bool {
    a <= b
}

/// The keys of `s` in ascending order.
pub open spec fn sorted_keys(s: Seq<u64>) -> Seq<u64> {
    s.sort_by(|a: u64, b: u64| key_le(a, b))
}

/// The central keys of `s` once sorted: the middle one twice for an odd
/// count, the two central ones for an even count, nothing for no keys.
pub open spec fn median_pair(s: Seq<u64>) -> Option<(u64, u64)> {
    let t = sorted_keys(s);
    let n = t.len() as int;
    if n == 0 {
        None
    } else if n % 2 == 1 {
        Some((t[n / 2], t[n / 2]))
    } else {
        Some((t[n / 2 - 1], t[n / 2]))
    }
}

/// The key of a bit pattern: negative values (sign set) have all bits
/// flipped, the others have the sign bit set.
pub open spec fn key_of(bits: u64) -> u64 {
    if bits & SIGN_BIT != 0 {
        !bits
    } else {
        bits | SIGN_BIT
    }
}

/// The bit pattern back from its key.
pub open spec fn bits_of(key: u64) -> u64 {
    if key & SIGN_BIT != 0 {
        key & !SIGN_BIT
    } else {
        !key
    }
}

/// The IEEE-754 total order on double bit patterns: every negative pattern
/// (sign set) precedes every non-negative one; non-negative patterns rise with
/// their magnitude bits, negative ones fall with them.
pub open spec fn total_le(a: u64, b: u64) -> bool {
    let sa = a & SIGN_BIT != 0;
    let sb = b & SIGN_BIT != 0;
    if sa && !sb {
        true
    } else if !sa && sb {
        false
    } else if sa {
        b <= a
    } else {
        a <= b
    }
}

proof fn lemma_key_order()
    ensures
        total_ordering(|a: u64, b: u64| key_le(a, b)),
{
}

/// Relies on `slice::sort_unstable`: afterwards the elements are in ascending
/// order and are the same elements as before.
#[verifier::external_body]
fn sort_ascending(v: &mut Vec<u64>)
    ensures
        sorted_by(final(v)@, |a: u64, b: u64| key_le(a, b)),
        final(v)@.to_multiset() == old(v)@.to_multiset(),
{
    v.sort_unstable()
}

/// The order key of a double's bit pattern.
pub fn order_key(bits: u64) -> (r: u64)
    ensures
        r == key_of(bits),
{
    if bits & SIGN_BIT != 0 {
        !bits
    } else {
        bits | SIGN_BIT
    }
}

/// The double's bit pattern back from its order key.
pub fn key_bits(key: u64) -> (r: u64)
    ensures
        r == bits_of(key),
{
    if key & SIGN_BIT != 0 {
        key & !SIGN_BIT
    } else {
        !key
    }
}

/// Sorts `keys` in place and returns its central keys (see `median_pair`).
pub fn median_keys(keys: &mut Vec<u64>) -> (r: Option<(u64, u64)>)
    ensures
        final(keys)@ == sorted_keys(old(keys)@),
        r == median_pair(old(keys)@),
        r is None <==> old(keys)@.len() == 0,
{
    sort_ascending(keys);
    proof {
        lemma_key_order();
        old(keys)@.lemma_sort_by_ensures(|a: u64, b: u64| key_le(a, b));
        vstd::seq_lib::lemma_sorted_unique(
            keys@,
            sorted_keys(old(keys)@),
            |a: u64, b: u64| key_le(a, b),
        );
        assert(keys@.len() == old(keys)@.len()) by {
            keys@.to_multiset_ensures();
            old(keys)@.to_multiset_ensures();
        }
    }
    let n = keys.len();
    if n == 0 {
        None
    } else if n % 2 == 1 {
        Some((keys[n / 2], keys[n / 2]))
    } else {
        Some((keys[n / 2 - 1], keys[n / 2]))
    }
}

/// Converting a bit pattern to its key and back gives the pattern again.
pub proof fn key_round_trip(bits: u64)
    ensures
        bits_of(key_of(bits)) == bits,
{
    assert(bits & 0x8000_0000_0000_0000u64 != 0 ==> (!bits) & 0x8000_0000_0000_0000u64 == 0
        && !(!bits) == bits) by (bit_vector);
    assert(bits & 0x8000_0000_0000_0000u64 == 0 ==> (bits | 0x8000_0000_0000_0000u64)
        & 0x8000_0000_0000_0000u64 != 0 && (bits | 0x8000_0000_0000_0000u64)
        & !0x8000_0000_0000_0000u64 == bits) by (bit_vector);
}

/// Keys order bit patterns exactly as the IEEE total order does.
pub proof fn key_order_is_total_order(a: u64, b: u64)
    ensures
        key_le(key_of(a), key_of(b)) <==> total_le(a, b),
{
    assert((a & 0x8000_0000_0000_0000u64 != 0 && b & 0x8000_0000_0000_0000u64 != 0) ==> (!a <= !b
        <==> b <= a)) by (bit_vector);
    assert((a & 0x8000_0000_0000_0000u64 == 0 && b & 0x8000_0000_0000_0000u64 == 0) ==> ((a
        | 0x8000_0000_0000_0000u64) <= (b | 0x8000_0000_0000_0000u64) <==> a <= b)) by (bit_vector);
    assert((a & 0x8000_0000_0000_0000u64 != 0 && b & 0x8000_0000_0000_0000u64 == 0) ==> !a < (b
        | 0x8000_0000_0000_0000u64)) by (bit_vector);
    assert((a & 0x8000_0000_0000_0000u64 == 0 && b & 0x8000_0000_0000_0000u64 != 0) ==> !b < (a
        | 0x8000_0000_0000_0000u64)) by (bit_vector);
}

/// The median does not depend on the order of its inputs: two sequences with
/// the same elements have the same central keys.
pub proof fn median_permutation_invariant(xs: Seq<u64>, ys: Seq<u64>)
    requires
        xs.to_multiset() == ys.to_multiset(),
    ensures
        median_pair(xs) == median_pair(ys),
{
    lemma_key_order();
    xs.lemma_sort_by_ensures(|a: u64, b: u64| key_le(a, b));
    ys.lemma_sort_by_ensures(|a: u64, b: u64| key_le(a, b));
    vstd::seq_lib::lemma_sorted_unique(
        sorted_keys(xs),
        sorted_keys(ys),
        |a: u64, b: u64| key_le(a, b),
    );
}

/// For an odd count the median is the middle key after sorting; for an even
/// count it is the pair of the two central sorted keys.
pub proof fn median_is_central(xs: Seq<u64>)
    requires
        xs.len() > 0,
    ensures
        sorted_by(sorted_keys(xs), |a: u64, b: u64| key_le(a, b)),
        sorted_keys(xs).len() == xs.len(),
        xs.len() % 2 == 1 ==> median_pair(xs) == Some(
            (sorted_keys(xs)[xs.len() as int / 2], sorted_keys(xs)[xs.len() as int / 2]),
        ),
        xs.len() % 2 == 0 ==> median_pair(xs) == Some(
            (sorted_keys(xs)[xs.len() as int / 2 - 1], sorted_keys(xs)[xs.len() as int / 2]),
        ),
{
    lemma_key_order();
    xs.lemma_sort_by_ensures(|a: u64, b: u64| key_le(a, b));
    xs.to_multiset_ensures();
    sorted_keys(xs).to_multiset_ensures();
}

} // verus!
