//! Numbers and texts in the bytes of a partition table.

use vstd::prelude::*;
use vstd::std_specs::iter::IteratorSpec;

verus! {

/// The number whose little-endian bytes are `b`.
pub open spec fn le_number(b: Seq<u8>) -> nat
    decreases b.len(),
{
    if b.len() == 0 {
        0
    } else {
        b[0] as nat + 256 * le_number(b.skip(1))
    }
}

spec fn pow256(n: nat) -> nat
    decreases n,
{
    if n == 0 {
        1
    } else {
        256 * pow256((n - 1) as nat)
    }
}

proof fn lemma_le_number_bound(b: Seq<u8>)
    ensures
        le_number(b) < pow256(b.len()),
    decreases b.len(),
{
    if b.len() > 0 {
        lemma_le_number_bound(b.skip(1));
    }
}

proof fn lemma_pow256_monotonic(a: nat, b: nat)
    requires
        a <= b,
    ensures
        pow256(a) <= pow256(b),
    decreases b,
{
    if a < b {
        lemma_pow256_monotonic(a, (b - 1) as nat);
    }
}

/// The little-endian number in the `len` bytes from `at`.
pub fn read_le(bytes: &[u8], at: usize, len: usize) -> (r: u64)
    requires
        len <= 8,
        at + len <= bytes@.len(),
    ensures
        r == le_number(bytes@.subrange(at as int, at + len)),
        r < 0x1_0000_0000 || len > 4,
        r < 0x1_0000 || len > 2,
{
    let total: usize = bytes.len();
    let mut value: u64 = 0;
    let mut i: usize = len;
    let ghost field = bytes@.subrange(at as int, at + len);
    assert(field.skip(len as int) =~= Seq::<u8>::empty());
    while i > 0
        invariant
            i <= len <= 8,
            at + len <= total,
            total == bytes@.len(),
            field == bytes@.subrange(at as int, at + len),
            value == le_number(field.skip(i as int)),
        decreases i,
    {
        let ghost rest = field.skip(i - 1);
        proof {
            assert(rest.skip(1) =~= field.skip(i as int));
            lemma_le_number_bound(rest);
            lemma_pow256_monotonic(rest.len(), 8);
            reveal_with_fuel(pow256, 9);
        }
        i = i - 1;
        value = bytes[at + i] as u64 + 256 * value;
    }
    proof {
        assert(field.skip(0) =~= field);
        lemma_le_number_bound(field);
        reveal_with_fuel(pow256, 9);
        if len <= 4 {
            lemma_pow256_monotonic(field.len(), 4);
        }
        if len <= 2 {
            lemma_pow256_monotonic(field.len(), 2);
        }
    }
    value
}

/// The 16-bit little-endian units in a sequence of bytes.
pub open spec fn le_units(b: Seq<u8>) -> Seq<u16> {
    Seq::new(b.len() / 2, |i: int| le_number(b.subrange(2 * i, 2 * i + 2)) as u16)
}

/// The units that are not zero.
pub open spec fn nonzero_units(units: Seq<u16>) -> Seq<u16> {
    units.filter(|u: u16| u != 0)
}

/// The text that UTF-16 units encode, if they encode one: a unit outside the
/// surrogates is a character, and a high surrogate with a low one behind it is
/// one too.
pub open spec fn utf16_text(units: Seq<u16>) -> Option<Seq<char>>
    decreases units.len(),
{
    if units.len() == 0 {
        Some(Seq::empty())
    } else if !(0xD800 <= units[0] <= 0xDFFF) {
        match utf16_text(units.skip(1)) {
            Some(rest) => Some(seq![units[0] as char] + rest),
            None => None,
        }
    } else if units[0] <= 0xDBFF && units.len() >= 2 && 0xDC00 <= units[1] <= 0xDFFF {
        match utf16_text(units.skip(2)) {
            Some(rest) => Some(
                seq![
                    (0x10000 + (units[0] - 0xD800) * 0x400 + (units[1] - 0xDC00)) as char,
                ] + rest,
            ),
            None => None,
        }
    } else {
        None
    }
}

/// The text in a field of UTF-16 units that is padded with zeros; empty where
/// the units that are not zero encode no text.
pub open spec fn padded_text(b: Seq<u8>) -> Seq<char> {
    match utf16_text(nonzero_units(le_units(b))) {
        Some(text) => text,
        None => Seq::empty(),
    }
}

/// Calls `String::from_utf16`: the text that the units encode, or nothing where
/// they are not valid UTF-16.
#[verifier::external_body]
fn text_from_utf16(units: &[u16]) -> (r: Option<String>)
    ensures
        match r {
            Some(text) => utf16_text(units@) == Some(text@),
            None => utf16_text(units@) is None,
        },
{
    String::from_utf16(units).ok()
}

/// Calls `Vec::try_into`: the items of a list as an array, where there are as many
/// of them as the array holds; the list itself where there are not.
#[verifier::external_body]
fn array_from_vec<const N: usize, T>(items: Vec<T>) -> (r: Result<[T; N], Vec<T>>)
    ensures
        match r {
            Ok(array) => array@ == items@,
            Err(given) => given@ == items@ && items@.len() != N,
        },
{
    items.try_into()
}

/// The next `N` items that an iterator yields. No more of them are drawn.
pub fn collect_to_array<const N: usize, T: Copy, I: Iterator<Item = T>>(
    iter: &mut I,
) -> (r: [T; N])
    requires
        <I as IteratorSpec>::obeys_prophetic_iter_laws(old(iter)),
        N <= <I as IteratorSpec>::remaining(old(iter)).len(),
    ensures
        <I as IteratorSpec>::obeys_prophetic_iter_laws(final(iter)),
        r@ == <I as IteratorSpec>::remaining(old(iter)).take(N as int),
        <I as IteratorSpec>::remaining(final(iter)) == <I as IteratorSpec>::remaining(
            old(iter),
        ).skip(N as int),
{
    let ghost all = <I as IteratorSpec>::remaining(iter);
    let mut ret: Vec<T> = Vec::new();
    assert(all.skip(0) =~= all);
    for i in 0..N
        invariant
            <I as IteratorSpec>::obeys_prophetic_iter_laws(iter),
            all == <I as IteratorSpec>::remaining(old(iter)),
            N <= all.len(),
            <I as IteratorSpec>::remaining(iter) == all.skip(i as int),
            ret@ == all.take(i as int),
    {
        let ghost rest = all.skip(i as int);
        if let Some(item) = iter.next() {
            ret.push(item);
            assert(ret@ =~= all.take(i + 1));
        }
        assert(rest.drop_first() =~= all.skip(i + 1));
    }
    match array_from_vec::<N, T>(ret) {
        Ok(array) => array,
        Err(_) => vstd::pervasive::unreached(),
    }
}

/// The 16-bit little-endian units in a sequence of bytes.
fn read_units(bytes: &[u8]) -> (r: Vec<u16>)
    ensures
        r@ == le_units(bytes@),
{
    let total: usize = bytes.len();
    let n: usize = total / 2;
    let mut units: Vec<u16> = Vec::new();
    for i in 0..n
        invariant
            total == bytes@.len(),
            n == total / 2,
            units@.len() == i,
            forall|k: int| 0 <= k < i ==> units@[k] == le_units(bytes@)[k],
    {
        units.push(read_le(bytes, 2 * i, 2) as u16);
    }
    assert(units@ =~= le_units(bytes@));
    units
}

/// The units that are not zero.
fn drop_zero_units(units: &[u16]) -> (r: Vec<u16>)
    ensures
        r@ == nonzero_units(units@),
{
    let mut kept: Vec<u16> = Vec::new();
    for i in 0..units.len()
        invariant
            kept@ == nonzero_units(units@.take(i as int)),
    {
        proof {
            reveal(Seq::filter);
            assert(units@.take(i + 1).drop_last() =~= units@.take(i as int));
        }
        if units[i] != 0 {
            kept.push(units[i]);
        }
    }
    assert(units@.take(units@.len() as int) =~= units@);
    kept
}

/// The text in a field of thirty-six UTF-16 units that is padded with zeros.
pub fn read_padded_text(bytes: &[u8]) -> (r: String)
    requires
        bytes@.len() == 72,
    ensures
        r@ == padded_text(bytes@),
{
    let units: Vec<u16> = read_units(bytes);
    let ghost all = units@;
    let field: [u16; 36] = collect_to_array(&mut units.into_iter());
    assert(field@ =~= all);
    match text_from_utf16(&drop_zero_units(&field)) {
        Some(text) => text,
        None => String::new(),
    }
}

} // verus!
