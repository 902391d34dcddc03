//! What holds of every number that is written or read.

use crate::text::{
    all_digits, decimal, digits_value, has_unit_suffix, law_decimal_reads_back, quantity, texts,
    u64_of_text,
};
use vstd::arithmetic::div_mod::lemma_div_denominator;
use vstd::prelude::*;

verus! {

/// The `n`th power of ten.
pub open spec fn pow10(n: nat) -> nat
    decreases n,
{
    if n == 0 {
        1
    } else {
        10 * pow10((n - 1) as nat)
    }
}

proof fn lemma_pow10_positive(n: nat)
    ensures
        pow10(n) > 0,
    decreases n,
{
    if n > 0 {
        lemma_pow10_positive((n - 1) as nat);
    }
}

/// The decimal notation of a number has one digit if the number is less than ten;
/// a longer one has as many digits as the number needs, so that it never begins
/// with a zero.
pub proof fn law_decimal_length(n: nat)
    ensures
        decimal(n).len() > 0,
        n < pow10(decimal(n).len()),
        decimal(n).len() > 1 ==> pow10((decimal(n).len() - 1) as nat) <= n,
    decreases n,
{
    if n < 10 {
        assert(pow10(1) == 10) by {
            reveal_with_fuel(pow10, 2);
        }
    } else {
        law_decimal_length(n / 10);
        let m = decimal(n / 10).len();
        assert(pow10(m + 1) == 10 * pow10(m));
        if m == 1 {
            assert(pow10(1) == 10) by {
                reveal_with_fuel(pow10, 2);
            }
        } else {
            assert(pow10(m) == 10 * pow10((m - 1) as nat));
        }
    }
}

/// The digit of the decimal notation that stands `i` places from its end is the
/// remainder by ten of the number without its last `i` digits.
pub proof fn law_decimal_digits(n: nat, i: nat)
    requires
        i < decimal(n).len(),
    ensures
        decimal(n)[decimal(n).len() - 1 - i] as int == 48 + (n / pow10(i)) % 10,
    decreases n,
{
    if i == 0 {
        assert(pow10(0) == 1);
        assert(n / 1 == n);
    } else {
        assert(n >= 10);
        let k = (i - 1) as nat;
        law_decimal_digits(n / 10, k);
        lemma_pow10_positive(k);
        lemma_div_denominator(n as int, 10, pow10(k) as int);
        assert(pow10(i) == 10 * pow10(k));
        assert(decimal(n)[decimal(n).len() - 1 - i] == decimal(n / 10)[decimal(n / 10).len() - 1
            - k]);
    }
}

/// A number with zeros before it, and a plus sign before those, or without.
pub open spec fn numeral(n: nat, zeros: nat, plus: bool) -> Seq<char> {
    (if plus {
        seq!['+']
    } else {
        Seq::empty()
    }) + Seq::new(zeros, |i: int| '0') + decimal(n)
}

/// Whether a text is a number in decimal notation, perhaps with zeros and a plus
/// sign before it.
pub open spec fn is_numeral(s: Seq<char>, n: nat) -> bool {
    exists|zeros: nat, plus: bool| s == #[trigger] numeral(n, zeros, plus)
}

proof fn lemma_zeros_before(zeros: nat, s: Seq<char>)
    requires
        all_digits(s),
    ensures
        all_digits(Seq::new(zeros, |i: int| '0') + s),
        digits_value(Seq::new(zeros, |i: int| '0') + s) == digits_value(s),
    decreases zeros + s.len(),
{
    let z = Seq::new(zeros, |i: int| '0');
    if s.len() > 0 {
        lemma_zeros_before(zeros, s.drop_last());
        assert((z + s).drop_last() =~= z + s.drop_last());
        assert((z + s).last() == s.last());
    } else if zeros > 0 {
        let fewer = Seq::new((zeros - 1) as nat, |i: int| '0');
        lemma_zeros_before((zeros - 1) as nat, s);
        assert((z + s).drop_last() =~= fewer + s);
        assert((z + s).last() == '0');
    } else {
        assert(z + s =~= s);
    }
}

/// Digits are zeros and the decimal notation of their value.
proof fn lemma_digits_are_a_numeral(d: Seq<char>)
    requires
        d.len() > 0,
        all_digits(d),
    ensures
        exists|zeros: nat| d == #[trigger] numeral(digits_value(d), zeros, false),
    decreases d.len(),
{
    let n = digits_value(d);
    let e = d.drop_last();
    let c = d.last();
    assert('0' <= d[d.len() - 1] <= '9');
    let v = digits_value(e);
    assert(n == v * 10 + (c as nat - 48));
    if e.len() == 0 {
        assert(v == 0);
        assert(d =~= numeral(n, 0, false));
    } else {
        assert forall|i: int| 0 <= i < e.len() implies '0' <= #[trigger] e[i] <= '9' by {
            assert(e[i] == d[i]);
        }
        lemma_digits_are_a_numeral(e);
        let zeros = choose|zeros: nat| e == #[trigger] numeral(v, zeros, false);
        if v > 0 {
            assert(n / 10 == v && n % 10 == c as nat - 48);
            assert(decimal(n) =~= decimal(v).push(c));
            assert(numeral(n, zeros, false) =~= numeral(v, zeros, false).push(c));
            assert(d =~= e.push(c));
        } else {
            assert(decimal(0) =~= seq!['0']);
            assert(decimal(n) =~= seq![c]);
            assert(d =~= e.push(c));
            assert(d =~= numeral(n, zeros + 1, false));
        }
    }
}

/// A text denotes a number exactly if it is that number in decimal notation,
/// perhaps with zeros and a plus sign before it.
pub proof fn law_numbers_are_numerals(s: Seq<char>, n: u64)
    ensures
        u64_of_text(s) == Some(n) <==> is_numeral(s, n as nat),
{
    let digits = if s.len() > 0 && s[0] == '+' {
        s.skip(1)
    } else {
        s
    };
    if u64_of_text(s) == Some(n) {
        lemma_digits_are_a_numeral(digits);
        let zeros = choose|zeros: nat| digits == #[trigger] numeral(n as nat, zeros, false);
        if s.len() > 0 && s[0] == '+' {
            assert(numeral(n as nat, zeros, true) =~= seq!['+'] + numeral(n as nat, zeros, false));
            assert(s =~= seq!['+'] + digits);
        } else {
            assert(s =~= numeral(n as nat, zeros, false));
        }
    }
    if is_numeral(s, n as nat) {
        let (zeros, plus) = choose|zeros: nat, plus: bool|
            s == #[trigger] numeral(n as nat, zeros, plus);
        let rest = Seq::new(zeros, |i: int| '0') + decimal(n as nat);
        law_decimal_reads_back(n as nat);
        lemma_zeros_before(zeros, decimal(n as nat));
        if plus {
            assert(s[0] == '+');
            assert(s.skip(1) =~= rest);
        } else {
            assert(s =~= rest);
            assert('0' <= rest[0] <= '9');
        }
    }
}

/// A text denotes no number exactly if it is no number that fits in 64 bits.
pub proof fn law_other_texts_are_no_numbers(s: Seq<char>)
    ensures
        u64_of_text(s) is None <==> forall|n: u64| !(#[trigger] is_numeral(s, n as nat)),
{
    if let Some(n) = u64_of_text(s) {
        law_numbers_are_numerals(s, n);
        assert(is_numeral(s, n as nat));
    } else {
        assert forall|n: u64| !(#[trigger] is_numeral(s, n as nat)) by {
            law_numbers_are_numerals(s, n);
        }
    }
}

/// A quantity is a number with one character behind it.
pub proof fn law_quantities(s: Seq<char>, n: u64)
    requires
        s.len() > 0,
    ensures
        quantity(s) == Some(n) <==> is_numeral(s.take(s.len() - 1), n as nat),
{
    assert(s.take(s.len() - 1) =~= s.drop_last());
    law_numbers_are_numerals(s.drop_last(), n);
}

/// A list of texts keeps each text in its place.
pub proof fn law_texts(list: Seq<String>, i: int)
    requires
        0 <= i < list.len(),
    ensures
        texts(list).len() == list.len(),
        texts(list)[i] == list[i]@,
{
}

/// A text has a unit exactly if it does not end in a character outside ASCII and
/// is not empty.
pub proof fn law_units(s: Seq<char>)
    ensures
        has_unit_suffix(s) <==> s.len() > 0 && (s[s.len() - 1] as u32) < 128,
{
}

} // verus!
