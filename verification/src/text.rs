//! Texts, and decimal numbers as texts.

use vstd::prelude::*;
use vstd::string::*;

verus! {

/// The character of one decimal digit.
pub open spec fn digit_char(d: nat) -> char
    recommends
        d < 10,
{
    (48 + d) as char
}

/// The decimal notation of a number, without leading zeros.
pub open spec fn decimal(n: nat) -> Seq<char>
    decreases n,
{
    if n < 10 {
        seq![digit_char(n)]
    } else {
        decimal(n / 10).push(digit_char(n % 10))
    }
}

/// Whether every character is one of `0` to `9`.
pub open spec fn all_digits(s: Seq<char>) -> bool {
    forall|i: int| 0 <= i < s.len() ==> '0' <= #[trigger] s[i] <= '9'
}

/// The number that a sequence of decimal digits denotes.
pub open spec fn digits_value(s: Seq<char>) -> nat
    decreases s.len(),
{
    if s.len() == 0 {
        0
    } else {
        digits_value(s.drop_last()) * 10 + (s.last() as nat - 48) as nat
    }
}

/// The `u64` that a text denotes: an optional `+`, then at least one digit and
/// nothing else, of a value that fits.
pub open spec fn u64_of_text(s: Seq<char>) -> Option<u64> {
    let digits = if s.len() > 0 && s[0] == '+' {
        s.skip(1)
    } else {
        s
    };
    if digits.len() > 0 && all_digits(digits) && digits_value(digits) <= u64::MAX {
        Some(digits_value(digits) as u64)
    } else {
        None
    }
}

/// Whether a text can lose its last byte and stay a text: it is not empty and
/// its last character is ASCII.
pub open spec fn has_unit_suffix(s: Seq<char>) -> bool {
    s.len() > 0 && (s.last() as u32) < 128
}

/// The number in a quantity such as `512B`: the text without its last character.
pub open spec fn quantity(s: Seq<char>) -> Option<u64> {
    u64_of_text(s.drop_last())
}

/// The value of digits only grows when more digits follow.
proof fn lemma_prefix_value(s: Seq<char>, k: int)
    requires
        0 <= k <= s.len(),
        all_digits(s),
    ensures
        digits_value(s.take(k)) <= digits_value(s),
    decreases s.len(),
{
    if k < s.len() {
        lemma_prefix_value(s.drop_last(), k);
        assert(s.drop_last().take(k) =~= s.take(k));
    } else {
        assert(s.take(k) =~= s);
    }
}

/// Decimal notation holds digits only, at least one of them, and denotes the
/// number it was made from.
pub proof fn law_decimal_reads_back(n: nat)
    ensures
        decimal(n).len() > 0,
        all_digits(decimal(n)),
        digits_value(decimal(n)) == n,
    decreases n,
{
    reveal_with_fuel(digits_value, 2);
    if n < 10 {
        assert(decimal(n).drop_last() =~= Seq::<char>::empty());
    } else {
        law_decimal_reads_back(n / 10);
        assert(decimal(n).drop_last() =~= decimal(n / 10));
    }
}

/// A number written in decimal and followed by a unit of one ASCII character
/// is read back as that number.
pub proof fn law_quantity_reads_decimal(n: u64, unit: char)
    requires
        (unit as u32) < 128,
    ensures
        has_unit_suffix(decimal(n as nat).push(unit)),
        quantity(decimal(n as nat).push(unit)) == Some(n),
{
    law_decimal_reads_back(n as nat);
    assert(decimal(n as nat).push(unit).drop_last() =~= decimal(n as nat));
}

fn digit_text(d: u64) -> (r: &'static str)
    requires
        d < 10,
    ensures
        r@ == seq![digit_char(d as nat)],
{
    proof {
        reveal_strlit("0");
        reveal_strlit("1");
        reveal_strlit("2");
        reveal_strlit("3");
        reveal_strlit("4");
        reveal_strlit("5");
        reveal_strlit("6");
        reveal_strlit("7");
        reveal_strlit("8");
        reveal_strlit("9");
    }
    match d {
        0 => "0",
        1 => "1",
        2 => "2",
        3 => "3",
        4 => "4",
        5 => "5",
        6 => "6",
        7 => "7",
        8 => "8",
        _ => "9",
    }
}

/// Appends the decimal notation of `n` to `out`.
pub fn push_decimal(out: &mut String, n: u64)
    ensures
        final(out)@ == old(out)@ + decimal(n as nat),
    decreases n,
{
    let ghost before = out@;
    if n >= 10 {
        push_decimal(out, n / 10);
    }
    out.append(digit_text(n % 10));
    assert(out@ =~= before + decimal(n as nat));
}

/// Reads a `u64` in decimal, as `str::parse` does.
pub fn parse_u64(text: &str) -> (r: Option<u64>)
    ensures
        r == u64_of_text(text@),
{
    let ghost s = text@;
    let mut value: u64 = 0;
    let mut seen: bool = false;
    let mut signed: bool = false;
    let ghost from: int = if s.len() > 0 && s[0] == '+' { 1 } else { 0 };
    let ghost digits = s.skip(from);
    for c in it: text.chars()
        invariant
            text@ == s,
            it.seq() == s,
            from == (if s.len() > 0 && s[0] == '+' { 1int } else { 0 }),
            digits == s.skip(from),
            it.index() > 0 ==> signed == (from == 1),
            it.index() == 0 ==> !signed && !seen && value == 0,
            seen == (it.index() > from),
            it.index() > from ==> all_digits(digits.take(it.index() - from)),
            it.index() > from ==> value == digits_value(digits.take(it.index() - from)),
            it.index() <= from ==> value == 0,
    {
        if !signed && !seen && c == '+' {
            signed = true;
        } else {
            let ghost k: int = it.index() - from;
            proof {
                assert(digits[k] == c);
                assert(from == 0 ==> digits =~= s);
            }
            if c < '0' || c > '9' {
                return None;
            }
            let d: u64 = (c as u32 - 48) as u64;
            proof {
                assert(digits.take(k + 1).drop_last() =~= digits.take(k));
                assert(digits.take(k + 1).last() == c);
                assert(value == digits_value(digits.take(k)));
            }
            if value > (u64::MAX - d) / 10 {
                proof {
                    if all_digits(digits) {
                        lemma_prefix_value(digits, k + 1);
                    }
                }
                return None;
            }
            value = value * 10 + d;
            seen = true;
        }
    }
    proof {
        if seen {
            assert(digits.take(digits.len() as int) =~= digits);
        }
        if from == 0 {
            assert(digits =~= s);
        }
    }
    if seen { Some(value) } else { None }
}

/// The number in a quantity that ends in a unit of one ASCII character, such as
/// the `512B` that a partition listing in bytes holds.
pub fn bytes_str_to_num(text: &str) -> (r: Option<u64>)
    requires
        has_unit_suffix(text@),
    ensures
        r == quantity(text@),
{
    let n: usize = text.unicode_len();
    let head: &str = text.substring_char(0, n - 1);
    assert(head@ =~= text@.drop_last());
    parse_u64(head)
}

/// A list of texts as contracts speak of it.
pub open spec fn texts(list: Seq<String>) -> Seq<Seq<char>> {
    list.map_values(|s: String| s@)
}

/// Whether two texts are equal.
pub fn same_text(a: &String, b: &str) -> (r: bool)
    ensures
        r == (a@ == b@),
{
    *a == b.to_owned()
}

} // verus!
