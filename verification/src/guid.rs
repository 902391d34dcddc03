//! The 128-bit identifiers of partitions and partition types.

use vstd::prelude::*;

verus! {

/// A universally unique identifier, as the number whose big-endian bytes are
/// the identifier's bytes.
#[derive(Debug, Clone, Copy, PartialEq, Eq, Hash, Structural)]
pub struct Uuid {
    pub value: u128,
}

/// The character of one hexadecimal digit, in lower case.
pub open spec fn hex_char(d: nat) -> char
    recommends
        d < 16,
{
    if d < 10 {
        (48 + d) as char
    } else {
        (87 + d) as char
    }
}

/// The last `n` hexadecimal digits of `v`.
pub open spec fn hex_digits(v: nat, n: nat) -> Seq<char>
    decreases n,
{
    if n == 0 {
        Seq::empty()
    } else {
        hex_digits(v / 16, (n - 1) as nat).push(hex_char(v % 16))
    }
}

/// Thirty-two digits in the five groups of a written identifier.
pub open spec fn hyphenate(d: Seq<char>) -> Seq<char>
    recommends
        d.len() == 32,
{
    d.subrange(0, 8) + seq!['-'] + d.subrange(8, 12) + seq!['-'] + d.subrange(12, 16) + seq!['-']
        + d.subrange(16, 20) + seq!['-'] + d.subrange(20, 32)
}

/// What is left of the thirty-six characters of a written identifier without
/// its hyphens.
pub open spec fn unhyphenate(s: Seq<char>) -> Seq<char>
    recommends
        s.len() == 36,
{
    s.subrange(0, 8) + s.subrange(9, 13) + s.subrange(14, 18) + s.subrange(19, 23) + s.subrange(
        24,
        36,
    )
}

/// The hyphenated notation of an identifier, in lower case.
pub open spec fn uuid_text(u: Uuid) -> Seq<char> {
    hyphenate(hex_digits(u.value as nat, 32))
}

/// The value of a hexadecimal digit of either case.
pub open spec fn hex_value(c: char) -> Option<nat> {
    if '0' <= c <= '9' {
        Some((c as nat - 48) as nat)
    } else if 'a' <= c <= 'f' {
        Some((c as nat - 87) as nat)
    } else if 'A' <= c <= 'F' {
        Some((c as nat - 55) as nat)
    } else {
        None
    }
}

/// The number that a sequence of hexadecimal digits denotes.
pub open spec fn hex_number(s: Seq<char>) -> Option<nat>
    decreases s.len(),
{
    if s.len() == 0 {
        Some(0)
    } else {
        match (hex_number(s.drop_last()), hex_value(s.last())) {
            (Some(n), Some(d)) => Some(n * 16 + d),
            _ => None,
        }
    }
}

/// The number in the hyphenated notation of an identifier.
pub open spec fn hyphenated_number(s: Seq<char>) -> Option<nat> {
    if s.len() == 36 && s[8] == '-' && s[13] == '-' && s[18] == '-' && s[23] == '-' {
        hex_number(unhyphenate(s))
    } else {
        None
    }
}

/// Whether a text begins with `urn:uuid:`, in letters of either case.
pub open spec fn has_urn_prefix(s: Seq<char>) -> bool {
    &&& s.len() >= 9
    &&& s[0] == 'u' || s[0] == 'U'
    &&& s[1] == 'r' || s[1] == 'R'
    &&& s[2] == 'n' || s[2] == 'N'
    &&& s[3] == ':'
    &&& s[4] == 'u' || s[4] == 'U'
    &&& s[5] == 'u' || s[5] == 'U'
    &&& s[6] == 'i' || s[6] == 'I'
    &&& s[7] == 'd' || s[7] == 'D'
    &&& s[8] == ':'
}

/// The identifier that a text denotes: thirty-two hexadecimal digits, or the
/// hyphenated notation, bare, in braces or as a URN.
pub open spec fn uuid_of_text(s: Seq<char>) -> Option<Uuid> {
    let number = if s.len() == 32 {
        hex_number(s)
    } else if s.len() == 36 {
        hyphenated_number(s)
    } else if s.len() == 38 && s[0] == '{' && s[37] == '}' {
        hyphenated_number(s.subrange(1, 37))
    } else if s.len() == 45 && has_urn_prefix(s) {
        hyphenated_number(s.subrange(9, 45))
    } else {
        None
    };
    match number {
        Some(n) => Some(Uuid { value: n as u128 }),
        None => None,
    }
}

/// The number whose big-endian bytes are `b`.
pub open spec fn be_number(b: Seq<u8>) -> nat
    decreases b.len(),
{
    if b.len() == 0 {
        0
    } else {
        be_number(b.drop_last()) * 256 + b.last() as nat
    }
}

/// The bytes of an identifier that is stored with its first three fields in
/// little-endian order, in the order in which they are written.
pub open spec fn mixed_endian(b: Seq<u8>) -> Seq<u8>
    recommends
        b.len() == 16,
{
    seq![b[3], b[2], b[1], b[0], b[5], b[4], b[7], b[6]] + b.subrange(8, 16)
}

/// The identifier that sixteen bytes of a partition table hold.
pub open spec fn uuid_of_bytes_le(b: Seq<u8>) -> Uuid {
    Uuid { value: be_number(mixed_endian(b)) as u128 }
}

/// Whether the version and variant fields are those of a random identifier.
pub open spec fn is_random_uuid(u: Uuid) -> bool {
    &&& (u.value as nat / 0x1000_0000_0000_0000_0000) % 16 == 4
    &&& (u.value as nat / 0x4000_0000_0000_0000) % 4 == 2
}

/// The `n`th power of sixteen.
spec fn pow16(n: nat) -> nat
    decreases n,
{
    if n == 0 {
        1
    } else {
        16 * pow16((n - 1) as nat)
    }
}

/// An identifier is less than the thirty-second power of sixteen.
#[verifier::spinoff_prover]
proof fn lemma_pow16_32()
    ensures
        pow16(32) == u128::MAX + 1,
{
    reveal_with_fuel(pow16, 33);
}

proof fn lemma_hex_digits(v: nat, n: nat)
    requires
        v < pow16(n),
    ensures
        hex_digits(v, n).len() == n,
        hex_number(hex_digits(v, n)) == Some(v),
    decreases n,
{
    if n > 0 {
        lemma_hex_digits(v / 16, (n - 1) as nat);
        assert(hex_digits(v, n).drop_last() =~= hex_digits(v / 16, (n - 1) as nat));
    }
}

/// The written form of an identifier has thirty-six characters and is read
/// back as that identifier.
pub proof fn law_uuid_text_round_trip(u: Uuid)
    ensures
        uuid_text(u).len() == 36,
        uuid_of_text(uuid_text(u)) == Some(u),
{
    lemma_pow16_32();
    let d = hex_digits(u.value as nat, 32);
    lemma_hex_digits(u.value as nat, 32);
    assert(unhyphenate(hyphenate(d)) =~= d);
}

/// Two identifiers are written alike only if they are the same.
pub proof fn law_uuid_text_is_injective(a: Uuid, b: Uuid)
    requires
        uuid_text(a) == uuid_text(b),
    ensures
        a == b,
{
    law_uuid_text_round_trip(a);
    law_uuid_text_round_trip(b);
}

/// A random identifier is never the nil one.
pub proof fn law_random_uuid_is_not_nil(u: Uuid)
    requires
        is_random_uuid(u),
    ensures
        u.value != 0,
{
}

proof fn lemma_be_number(b: Seq<u8>)
    ensures
        be_number(b) < pow16(2 * b.len()),
        be_number(b) == 0 <==> forall|i: int| 0 <= i < b.len() ==> b[i] == 0,
    decreases b.len(),
{
    if b.len() > 0 {
        lemma_be_number(b.drop_last());
        reveal_with_fuel(pow16, 3);
        if be_number(b) == 0 {
            assert forall|i: int| 0 <= i < b.len() implies b[i] == 0 by {
                if i < b.len() - 1 {
                    assert(b[i] == b.drop_last()[i]);
                }
            }
        }
        if forall|i: int| 0 <= i < b.len() ==> b[i] == 0 {
            assert(forall|i: int| 0 <= i < b.drop_last().len() ==> b.drop_last()[i] == 0);
        }
    }
}

/// Sixteen bytes hold the nil identifier exactly if they are all zero.
#[verifier::spinoff_prover]
pub proof fn law_nil_bytes(b: Seq<u8>)
    requires
        b.len() == 16,
    ensures
        uuid_of_bytes_le(b).value == 0 <==> forall|i: int| 0 <= i < 16 ==> b[i] == 0,
{
    let m = mixed_endian(b);
    lemma_be_number(m);
    lemma_pow16_32();
    if forall|i: int| 0 <= i < m.len() ==> m[i] == 0 {
        assert forall|i: int| 0 <= i < 16 implies b[i] == 0 by {
            if i >= 8 {
                assert(m[i] == b[i]);
            }
            assert(m[3] == 0 && m[2] == 0 && m[1] == 0 && m[0] == 0);
            assert(m[5] == 0 && m[4] == 0 && m[7] == 0 && m[6] == 0);
        }
    }
}

/// The weight of the bit above the random bits that end an identifier.
pub const TAIL: u128 = 0x4000_0000_0000_0000;

/// The weight of the lowest of the random bits that begin an identifier.
pub const HEAD: u128 = 0x1_0000_0000_0000_0000_0000;

/// The number of identifiers that differ in nothing but the random bits that begin
/// and end them.
pub const PLACES: u128 = 0x4000_0000_0000_0000_0000_0000_0000;

/// The number in the random bits that begin and end an identifier.
pub open spec fn random_place(u: Uuid) -> int {
    (u.value / HEAD) * TAIL + u.value % TAIL
}

/// The identifier with another number in the random bits that begin and end it.
pub open spec fn with_place(u: Uuid, place: int) -> Uuid {
    Uuid {
        value: ((place / TAIL as int) * HEAD + (u.value % HEAD - u.value % TAIL) + place % (
        TAIL as int)) as u128,
    }
}

/// The identifier that is `k` places behind another, among those that differ in
/// nothing but the random bits that begin and end them.
pub open spec fn uuid_behind(u: Uuid, k: int) -> Uuid {
    with_place(u, (random_place(u) + k) % (PLACES as int))
}

#[verifier::spinoff_prover]
proof fn lemma_with_place(u: Uuid, place: int)
    requires
        0 <= place < PLACES,
    ensures
        with_place(u, place).value == (place / TAIL as int) * HEAD + (u.value % HEAD - u.value
            % TAIL) + place % (TAIL as int),
        0 <= random_place(u) < PLACES,
        random_place(with_place(u, place)) == place,
        is_random_uuid(u) ==> is_random_uuid(with_place(u, place)),
        with_place(u, random_place(u)) == u,
{
    let v = u.value as int;
    let low = v % (TAIL as int);
    let mid = v % (HEAD as int) - low;
    let top = v / (HEAD as int);
    let b = (v % (HEAD as int)) / (TAIL as int);
    assert(HEAD == 0x4_0000 * TAIL);
    assert((v % (HEAD as int)) % (TAIL as int) == low);
    assert(mid == b * TAIL);
    assert(0 <= b < 0x4_0000);
    assert(v == top * HEAD + b * TAIL + low);
    assert(0 <= top < 0x1_0000_0000_0000);
    let t2 = place / TAIL as int;
    let l2 = place % (TAIL as int);
    assert(0 <= t2 < 0x1_0000_0000_0000);
    assert(0 <= l2 < TAIL);
    let w = t2 * HEAD + b * TAIL + l2;
    assert(0 <= w <= u128::MAX);
    assert(with_place(u, place).value == w);
    assert(w / HEAD as int == t2 && w % (TAIL as int) == l2);
    assert(w / TAIL as int == t2 * 0x4_0000 + b);
    assert(v / TAIL as int == top * 0x4_0000 + b);
    assert(w / 0x1000_0000_0000_0000_0000 == t2 * 16 + b / 0x4000);
    assert(v / 0x1000_0000_0000_0000_0000 == top * 16 + b / 0x4000);
    assert(random_place(u) == top * TAIL + low);
    assert(random_place(u) / TAIL as int == top && random_place(u) % (TAIL as int) == low);
}

proof fn lemma_uuid_behind(u: Uuid, k: int)
    requires
        0 <= k < PLACES,
    ensures
        0 <= random_place(u) < PLACES,
        random_place(uuid_behind(u, k)) == (random_place(u) + k) % (PLACES as int),
        is_random_uuid(u) ==> is_random_uuid(uuid_behind(u, k)),
        uuid_behind(u, 0) == u,
{
    lemma_with_place(u, 0);
    lemma_with_place(u, (random_place(u) + k) % (PLACES as int));
    assert((random_place(u) + 0) % (PLACES as int) == random_place(u));
}

/// Identifiers at different places are different.
proof fn lemma_uuid_behind_injective(u: Uuid, j: int, k: int)
    requires
        0 <= j < k < PLACES,
    ensures
        uuid_behind(u, j) != uuid_behind(u, k),
{
    lemma_uuid_behind(u, j);
    lemma_uuid_behind(u, k);
}

/// Among the identifiers behind another there is one that is not taken.
proof fn lemma_some_uuid_is_free(u: Uuid, taken: Seq<Uuid>)
    requires
        taken.len() < PLACES,
    ensures
        exists|k: int| 0 <= k <= taken.len() && !taken.contains(#[trigger] uuid_behind(u, k)),
{
    let n = taken.len();
    let all = Seq::new(n + 1, |k: int| uuid_behind(u, k));
    assert(all.no_duplicates()) by {
        assert forall|i: int, j: int| 0 <= i < all.len() && 0 <= j < all.len() && i != j implies all[i]
            != all[j] by {
            if i < j {
                lemma_uuid_behind_injective(u, i, j);
            } else {
                lemma_uuid_behind_injective(u, j, i);
            }
        }
    }
    if forall|k: int| 0 <= k <= n ==> taken.contains(#[trigger] uuid_behind(u, k)) {
        all.unique_seq_to_set();
        taken.lemma_cardinality_of_set();
        assert forall|v: Uuid| all.to_set().contains(v) implies taken.to_set().contains(v) by {
            let k = choose|k: int| 0 <= k < all.len() && all[k] == v;
            assert(taken.contains(uuid_behind(u, k)));
        }
        vstd::set_lib::lemma_len_subset(all.to_set(), taken.to_set());
    }
}

/// An identifier that is not taken: the one given, or the next one behind it
/// that is free.
pub(crate) fn free_uuid(u: Uuid, taken: &Vec<Uuid>) -> (r: Uuid)
    ensures
        !taken@.contains(r),
        !taken@.contains(u) ==> r == u,
        is_random_uuid(u) ==> is_random_uuid(r),
{
    let count: usize = taken.len();
    let low: u128 = u.value % TAIL;
    let mid: u128 = u.value % HEAD - low;
    proof {
        lemma_with_place(u, 0);
        lemma_uuid_behind(u, 0);
    }
    let from: u128 = (u.value / HEAD) * TAIL + low;
    let mut k: u128 = 0;
    while k <= count as u128
        invariant
            count == taken@.len(),
            from == random_place(u),
            from < PLACES,
            low == u.value % TAIL,
            mid == u.value % HEAD - low,
            k <= count + 1,
            uuid_behind(u, 0) == u,
            forall|j: int| 0 <= j < k ==> taken@.contains(#[trigger] uuid_behind(u, j)),
        decreases count + 1 - k,
    {
        let place: u128 = (from + k) % PLACES;
        proof {
            lemma_uuid_behind(u, k as int);
            lemma_with_place(u, place as int);
        }
        let value: u128 = (place / TAIL) * HEAD + mid + place % TAIL;
        let candidate: Uuid = Uuid { value };
        assert(candidate == uuid_behind(u, k as int));
        if !is_taken(taken, candidate) {
            return candidate;
        }
        k = k + 1;
    }
    proof {
        lemma_some_uuid_is_free(u, taken@);
    }
    vstd::pervasive::unreached()
}

fn is_taken(taken: &Vec<Uuid>, u: Uuid) -> (r: bool)
    ensures
        r == taken@.contains(u),
{
    for i in 0..taken.len()
        invariant
            forall|k: int| 0 <= k < i ==> taken@[k] != u,
    {
        if taken[i] == u {
            return true;
        }
    }
    false
}

impl Uuid {
    /// The identifier with all bits zero.
    pub fn nil() -> (r: Uuid)
        ensures
            r.value == 0,
    {
        Uuid { value: 0 }
    }

    /// Calls `uuid::Uuid::hyphenated` and its `Display`: the thirty-two
    /// lower-case hexadecimal digits of the identifier in five groups.
    #[verifier::external_body]
    pub(crate) fn hyphenated(&self) -> (r: String)
        ensures
            r@ == uuid_text(*self),
    {
        uuid::Uuid::from_u128(self.value).hyphenated().to_string()
    }

    /// Calls `uuid::Uuid::try_parse`: it accepts thirty-two hexadecimal digits
    /// of either case, or the hyphenated notation, bare, in braces or behind
    /// `urn:uuid:` in letters of either case, and nothing else.
    #[verifier::external_body]
    pub(crate) fn try_parse(text: &str) -> (r: Option<Uuid>)
        ensures
            r == uuid_of_text(text@),
    {
        uuid::Uuid::try_parse(text).ok().map(|u| Uuid { value: u.as_u128() })
    }

    /// Calls `uuid::Uuid::from_bytes_le`: the first four bytes, the next two
    /// and the two after them are each taken in reverse, the last eight as
    /// they stand.
    #[verifier::external_body]
    pub(crate) fn from_bytes_le(bytes: [u8; 16]) -> (r: Uuid)
        ensures
            r == uuid_of_bytes_le(bytes@),
    {
        Uuid { value: uuid::Uuid::from_bytes_le(bytes).as_u128() }
    }

    /// Calls `uuid::Uuid::new_v4`: an identifier whose version field is 4 and
    /// whose variant field is binary 10. The other bits are random, and nothing
    /// is claimed of them. The call ends in a panic where the operating
    /// system gives no random numbers.
    #[verifier::external_body]
    pub(crate) fn new_v4() -> (r: Uuid)
        ensures
            is_random_uuid(r),
    {
        Uuid { value: uuid::Uuid::new_v4().as_u128() }
    }
}

} // verus!
