//! Numbers as text: which fields read as a 64-bit integer or as a real, and how
//! integers are written.

use crate::text::{ascii_digit, chars_of, folded, is_ascii_digit, same_ignoring_case};
use vstd::arithmetic::power::{lemma_pow_increases, pow};
use vstd::prelude::*;

verus! {

// ---------------------------------------------------------------------------
// Integers
// ---------------------------------------------------------------------------

/// Does the text consist of ASCII digits alone?
pub open spec fn all_digits(s: Seq<char>) -> bool {
    forall|i: int| 0 <= i < s.len() ==> ascii_digit(#[trigger] s[i])
}

/// The value of a decimal digit.
pub open spec fn digit_value(c: char) -> int {
    c as int - '0' as int
}

/// The value of a text of digits, the most significant one first.
pub open spec fn decimal_value(s: Seq<char>) -> int
    decreases s.len(),
{
    if s.len() == 0 {
        0
    } else {
        decimal_value(s.drop_last()) * 10 + digit_value(s.last())
    }
}

/// Does the text start with a minus sign?
pub open spec fn negative(s: Seq<char>) -> bool {
    s.len() > 0 && s[0] == '-'
}

/// The text without its one leading sign, where it has one.
pub open spec fn unsigned_part(s: Seq<char>) -> Seq<char> {
    if s.len() > 0 && (s[0] == '-' || s[0] == '+') {
        s.drop_first()
    } else {
        s
    }
}

/// The integer that an optional sign and one or more digits denote.
pub open spec fn signed_value(s: Seq<char>) -> int {
    if negative(s) {
        -decimal_value(unsigned_part(s))
    } else {
        decimal_value(unsigned_part(s))
    }
}

/// Is the text an integer, of any size: an optional sign, then one or more digits and
/// nothing else?
pub open spec fn integer_text(s: Seq<char>) -> bool {
    unsigned_part(s).len() > 0 && all_digits(unsigned_part(s))
}

/// The 64-bit integer that a text denotes, where it is an integer that fits.
pub open spec fn int_value(s: Seq<char>) -> Option<i64> {
    if integer_text(s) && i64::MIN <= signed_value(s) <= i64::MAX {
        Some(signed_value(s) as i64)
    } else {
        None
    }
}

/// Reads a 64-bit integer.
pub fn parse_int(t: &str) -> (r: Option<i64>)
    ensures
        r == int_value(t@),
{
    let chars = chars_of(t);
    let mut start: usize = 0;
    let mut minus = false;
    if chars.len() > 0 && (chars[0] == '-' || chars[0] == '+') {
        minus = chars[0] == '-';
        start = 1;
    }
    let ghost digits = unsigned_part(t@);
    assert(digits == chars@.skip(start as int));
    if start == chars.len() {
        return None;
    }
    let mut i: usize = start;
    let mut value: u128 = 0;
    let mut too_large = false;
    assert(digits.take(0) == Seq::<char>::empty());
    while i < chars.len()
        invariant
            chars@ == t@,
            digits == unsigned_part(t@),
            digits == chars@.skip(start as int),
            start <= i <= chars@.len(),
            forall|j: int| 0 <= j < i - start ==> ascii_digit(#[trigger] digits[j]),
            !too_large ==> value == decimal_value(digits.take(i - start)),
            !too_large ==> value <= 0x8000_0000_0000_0000,
            too_large ==> decimal_value(digits.take(i - start)) > 0x8000_0000_0000_0000,
        decreases chars@.len() - i,
    {
        let c = chars[i];
        assert(digits[i - start] == c);
        if !is_ascii_digit(c) {
            return None;
        }
        let ghost next = digits.take(i - start + 1);
        assert(next.drop_last() == digits.take(i - start));
        assert(next.last() == c);
        if !too_large {
            value = value * 10 + (c as u32 - '0' as u32) as u128;
            if value > 0x8000_0000_0000_0000 {
                too_large = true;
            }
        }
        i += 1;
    }
    assert(digits.take(digits.len() as int) == digits);
    if too_large {
        return None;
    }
    if minus {
        Some((-(value as i128)) as i64)
    } else if value < 0x8000_0000_0000_0000 {
        Some(value as i64)
    } else {
        None
    }
}

/// The decimal digit of value `n`.
pub open spec fn digit_char(n: int) -> char {
    ('0' as int + n) as char
}

/// A number in decimal, without leading zeros.
pub open spec fn decimal(n: nat) -> Seq<char>
    decreases n,
{
    if n < 10 {
        seq![digit_char(n as int)]
    } else {
        decimal(n / 10).push(digit_char((n % 10) as int))
    }
}

/// An integer in decimal, with a minus sign where it is negative.
pub open spec fn signed_decimal(i: int) -> Seq<char> {
    if i < 0 {
        seq!['-'] + decimal((-i) as nat)
    } else {
        decimal(i as nat)
    }
}

/// Appends a number in decimal.
pub fn push_decimal(out: &mut String, n: u64)
    ensures
        final(out)@ == old(out)@ + decimal(n as nat),
    decreases n,
{
    if n >= 10 {
        push_decimal(out, n / 10);
    }
    let digit = (48 + (n % 10) as u8) as char;
    out.push(digit);
    assert(out@ == old(out)@ + decimal(n as nat));
}

/// Appends an integer in decimal.
pub fn push_signed_decimal(out: &mut String, i: i64)
    ensures
        final(out)@ == old(out)@ + signed_decimal(i as int),
{
    if i < 0 {
        out.push('-');
        push_decimal(out, (-(i as i128)) as u64);
        assert(out@ == old(out)@ + signed_decimal(i as int));
    } else {
        push_decimal(out, i as u64);
    }
}

/// Writing a number in decimal gives digits, at least one, whose value is the
/// number.
pub proof fn lemma_decimal(n: nat)
    ensures
        decimal(n).len() > 0,
        all_digits(decimal(n)),
        decimal_value(decimal(n)) == n,
    decreases n,
{
    if n < 10 {
        let s = decimal(n);
        assert(s.drop_last() == Seq::<char>::empty());
        assert(digit_value(s.last()) == n);
        assert(decimal_value(s.drop_last()) == 0);
    } else {
        lemma_decimal(n / 10);
        let s = decimal(n);
        assert(s.drop_last() == decimal(n / 10));
        assert(digit_value(s.last()) == n % 10);
        assert forall|i: int| 0 <= i < s.len() implies ascii_digit(#[trigger] s[i]) by {
            if i < s.len() - 1 {
                assert(s[i] == decimal(n / 10)[i]);
            }
        }
    }
}

/// An integer reads back from what it is written as.
pub proof fn law_integer_text_reads_back(i: i64)
    ensures
        int_value(signed_decimal(i as int)) == Some(i),
{
    if i < 0 {
        let n = (-(i as int)) as nat;
        lemma_decimal(n);
        assert(unsigned_part(signed_decimal(i as int)) == decimal(n));
    } else {
        lemma_decimal(i as nat);
        assert(ascii_digit(decimal(i as nat)[0]));
    }
}

// ---------------------------------------------------------------------------
// Reals
// ---------------------------------------------------------------------------

/// How many digits the text starts with.
pub open spec fn leading_digits(s: Seq<char>) -> nat
    decreases s.len(),
{
    if s.len() > 0 && ascii_digit(s[0]) {
        1 + leading_digits(s.drop_first())
    } else {
        0
    }
}

/// An exponent: `e` in either case, an optional sign, one or more digits.
pub open spec fn exponent(s: Seq<char>) -> bool {
    &&& s.len() > 0
    &&& s[0] == 'e' || s[0] == 'E'
    &&& unsigned_part(s.drop_first()).len() > 0
    &&& all_digits(unsigned_part(s.drop_first()))
}

/// An unsigned decimal number: digits with at most one point before, among or
/// after them, then an optional exponent.
pub open spec fn decimal_number(s: Seq<char>) -> bool {
    let whole = leading_digits(s);
    let rest = s.skip(whole as int);
    if rest.len() > 0 && rest[0] == '.' {
        let fraction = leading_digits(rest.drop_first());
        let tail = rest.skip(1 + fraction as int);
        whole + fraction > 0 && (tail.len() == 0 || exponent(tail))
    } else {
        whole > 0 && (rest.len() == 0 || exponent(rest))
    }
}

/// A word for infinity, in any case, with an optional sign.
pub open spec fn infinity_word(s: Seq<char>) -> bool {
    ||| same_ignoring_case(unsigned_part(s), "inf"@)
    ||| same_ignoring_case(unsigned_part(s), "infinity"@)
}

/// The word for "not a number", in any case, with an optional sign.
pub open spec fn nan_word(s: Seq<char>) -> bool {
    same_ignoring_case(unsigned_part(s), "nan"@)
}

/// The texts that read as a real number.
pub open spec fn real_syntax(s: Seq<char>) -> bool {
    decimal_number(unsigned_part(s)) || infinity_word(s) || nan_word(s)
}

/// The words for infinity and for "not a number" are no decimal numbers.
pub proof fn lemma_words_are_no_numbers(s: Seq<char>)
    ensures
        infinity_word(s) || nan_word(s) ==> unsigned_part(s).len() > 0 && !decimal_number(
            unsigned_part(s),
        ),
{
    reveal_strlit("inf");
    reveal_strlit("infinity");
    reveal_strlit("nan");
    let u = unsigned_part(s);
    if infinity_word(s) || nan_word(s) {
        assert(folded(u[0]) == folded('i') || folded(u[0]) == folded('n'));
        assert(leading_digits(u) == 0);
        assert(u.skip(0) == u);
    }
}

proof fn lemma_leading_digits(s: Seq<char>)
    requires
        all_digits(s),
    ensures
        leading_digits(s) == s.len(),
    decreases s.len(),
{
    if s.len() > 0 {
        assert(all_digits(s.drop_first()));
        lemma_leading_digits(s.drop_first());
    }
}

/// The text of an integer is also the text of a real.
pub proof fn lemma_integer_syntax_is_real_syntax(s: Seq<char>)
    requires
        integer_text(s),
    ensures
        decimal_number(unsigned_part(s)),
        real_syntax(s),
        !nan_word(s),
{
    let digits = unsigned_part(s);
    lemma_leading_digits(digits);
    assert(digits.skip(digits.len() as int).len() == 0);
    reveal_strlit("nan");
    assert(ascii_digit(digits[0]));
}

/// Is the text an integer that is not too large for a 64-bit real, of which the largest
/// is just below 1.8 times 10 to the 308?
pub open spec fn integer_in_real_range(s: Seq<char>) -> bool {
    integer_text(s) && decimal_value(unsigned_part(s)) <= pow(10, 308)
}

/// No 64-bit integer is too large for a 64-bit real.
pub proof fn lemma_64_bit_integers_are_in_real_range(s: Seq<char>)
    requires
        int_value(s) is Some,
    ensures
        integer_in_real_range(s),
{
    assert(pow(10, 19) >= 0x8000_0000_0000_0000) by {
        reveal_with_fuel(pow, 20);
    }
    lemma_pow_increases(10, 19, 308);
}

/// Do these 64 bits hold a finite real (IEEE 754 binary64: not all bits of the
/// exponent are set)?
pub open spec fn finite_bits(bits: u64) -> bool {
    bits / 0x10_0000_0000_0000 % 0x800 != 0x7ff
}

/// Do these 64 bits hold "not a number" (all bits of the exponent are set, and
/// some bit of the fraction)?
pub open spec fn nan_bits(bits: u64) -> bool {
    !finite_bits(bits) && bits % 0x10_0000_0000_0000 != 0
}

/// The bits of an infinity.
pub open spec fn infinity_bits(minus: bool) -> u64 {
    if minus {
        0xfff0_0000_0000_0000
    } else {
        0x7ff0_0000_0000_0000
    }
}

/// Decides [`finite_bits`].
pub fn is_finite(bits: u64) -> (r: bool)
    ensures
        r == finite_bits(bits),
{
    bits / 0x10_0000_0000_0000 % 0x800 != 0x7ff
}

/// The bits of the 64-bit real that a number's text reads as.
pub uninterp spec fn real_bits(s: Seq<char>) -> u64;

/// Reads a real with the standard library's `str::parse`, as the kind of real
/// that `rusqlite::types::Value::Real` holds, and hands out its bits.
///
/// Relied on: the texts that parse are those of the documented grammar; the
/// words for infinity give the infinity of their sign; the word for "not a
/// number" alone gives "not a number", in some bit pattern; the bits of every
/// other text depend on the text alone; and an integer in range gives a finite real.
#[verifier::external_body]
pub(crate) fn read_real(t: &str) -> (r: Option<u64>)
    ensures
        r is Some <==> real_syntax(t@),
        r matches Some(bits) ==> (nan_word(t@) <==> nan_bits(bits)),
        r matches Some(bits) ==> (!nan_word(t@) ==> bits == real_bits(t@)),
        r matches Some(bits) ==> (infinity_word(t@) ==> bits == infinity_bits(negative(t@))),
        r matches Some(bits) ==> (integer_in_real_range(t@) ==> finite_bits(bits)),
{
    match t.parse() {
        Ok(x) => match rusqlite::types::Value::Real(x) {
            rusqlite::types::Value::Real(x) => Some(x.to_bits()),
            _ => None,
        },
        Err(_) => None,
    }
}

// ---------------------------------------------------------------------------
// What holds of numbers
// ---------------------------------------------------------------------------

/// A text of digits has the value that its places give: the first digit counts as often as the
/// power of ten says that the number of digits behind it asks for.
pub proof fn law_digits_count_by_their_place(s: Seq<char>)
    ensures
        s.len() == 0 ==> decimal_value(s) == 0,
        s.len() > 0 ==> decimal_value(s) == (s[0] as int - 48) * pow(10, (s.len() - 1) as nat)
            + decimal_value(s.drop_first()),
    decreases s.len(),
{
    reveal(pow);
    if s.len() == 1 {
        assert(s.drop_last().len() == 0);
        assert(s.drop_first().len() == 0);
        assert(decimal_value(s.drop_last()) == 0);
        assert(decimal_value(s.drop_first()) == 0);
        assert(pow(10, 0) == 1);
    } else if s.len() > 1 {
        let front = s.drop_last();
        let rest = s.drop_first();
        law_digits_count_by_their_place(front);
        assert(front.drop_first() =~= rest.drop_last());
        assert(rest.last() == s.last());
        let d = s[0] as int - 48;
        let p = pow(10, (front.len() - 1) as nat);
        assert(pow(10, (s.len() - 1) as nat) == 10 * p);
        assert((d * p) * 10 == d * (10 * p)) by (nonlinear_arith);
    }
}

/// A number in decimal is made of the digits 0 to 9 alone, does not start with a zero unless it
/// is the zero, and has the number as its value.
pub proof fn law_decimal(n: nat)
    ensures
        decimal(n).len() > 0,
        forall|i: int| 0 <= i < decimal(n).len() ==> ('0' <= #[trigger] decimal(n)[i] && decimal(n)[i] <= '9'),
        n > 0 ==> decimal(n)[0] != '0',
        n == 0 ==> decimal(n).len() == 1,
        decimal_value(decimal(n)) == n,
    decreases n,
{
    lemma_decimal(n);
    assert forall|i: int| 0 <= i < decimal(n).len() implies ('0' <= #[trigger] decimal(n)[i] && decimal(n)[i] <= '9') by {
        assert(ascii_digit(decimal(n)[i]));
    }
    if n >= 10 {
        law_decimal(n / 10);
        assert(decimal(n)[0] == decimal(n / 10)[0]);
    } else if n > 0 {
        assert(digit_char(n as int) as int == 48 + n);
    }
}

/// An integer in decimal is its amount in decimal, with a minus sign in front exactly where it
/// is negative.
pub proof fn law_signed_decimal(i: int)
    ensures
        i >= 0 ==> signed_decimal(i) == decimal(i as nat),
        i < 0 ==> signed_decimal(i) == seq!['-'] + decimal((-i) as nat),
{
}

/// Every text of digits whose value fits 64 bits reads as that value, with a plus sign in front
/// or without, and with a minus sign as the negative value; one whose value does not fit is no
/// integer.
pub proof fn law_integers_are_read(digits: Seq<char>)
    requires
        digits.len() > 0,
        forall|i: int| 0 <= i < digits.len() ==> ('0' <= #[trigger] digits[i] && digits[i] <= '9'),
    ensures
        decimal_value(digits) <= 0x7fff_ffff_ffff_ffff ==> {
            &&& int_value(digits) == Some(decimal_value(digits) as i64)
            &&& int_value(seq!['+'] + digits) == Some(decimal_value(digits) as i64)
        },
        decimal_value(digits) > 0x7fff_ffff_ffff_ffff ==> {
            &&& int_value(digits) is None
            &&& int_value(seq!['+'] + digits) is None
        },
        decimal_value(digits) <= 0x8000_0000_0000_0000 ==> int_value(seq!['-'] + digits) == Some(
            (-decimal_value(digits)) as i64,
        ),
        decimal_value(digits) > 0x8000_0000_0000_0000 ==> int_value(seq!['-'] + digits) is None,
{
    lemma_not_negative(digits);
    assert(('0' <= digits[0] && digits[0] <= '9'));
    assert(unsigned_part(digits) == digits);
    assert((seq!['+'] + digits).drop_first() =~= digits);
    assert((seq!['-'] + digits).drop_first() =~= digits);
}

proof fn lemma_not_negative(digits: Seq<char>)
    requires
        forall|i: int| 0 <= i < digits.len() ==> ('0' <= #[trigger] digits[i] && digits[i] <= '9'),
    ensures
        decimal_value(digits) >= 0,
    decreases digits.len(),
{
    if digits.len() > 0 {
        assert forall|i: int| 0 <= i < digits.drop_last().len() implies ('0' <= #[trigger] digits.drop_last()[i] && digits.drop_last()[i] <= '9') by {
            assert(digits.drop_last()[i] == digits[i]);
        }
        lemma_not_negative(digits.drop_last());
        assert(('0' <= digits[digits.len() - 1] && digits[digits.len() - 1] <= '9'));
    }
}

/// Nothing else reads as an integer: behind at most one sign there are digits, at least one,
/// and nothing but digits.
pub proof fn law_only_integers_are_read(s: Seq<char>)
    requires
        int_value(s) is Some,
    ensures
        s.len() > 0,
        s[0] == '+' || s[0] == '-' || ('0' <= s[0] && s[0] <= '9'),
        s[0] == '+' || s[0] == '-' ==> s.len() > 1,
        forall|i: int| 0 < i < s.len() ==> ('0' <= #[trigger] s[i] && s[i] <= '9'),
{
    let digits = unsigned_part(s);
    assert(ascii_digit(digits[0]));
    assert forall|i: int| 0 < i < s.len() implies ('0' <= #[trigger] s[i] && s[i] <= '9') by {
        if digits.len() < s.len() {
            assert(ascii_digit(digits[i - 1]));
        } else {
            assert(ascii_digit(digits[i]));
        }
    }
}

/// The bits of a real that is not finite are those of an infinity or of "not a number": a sign,
/// an exponent of ones alone, and any fraction.
pub proof fn law_finite_bits(bits: u64)
    ensures
        !finite_bits(bits) <==> (0x7ff0_0000_0000_0000 <= bits <= 0x7fff_ffff_ffff_ffff
            || 0xfff0_0000_0000_0000 <= bits),
{
}

/// There are no more leading digits than characters.
pub proof fn lemma_leading_digits_bounded(s: Seq<char>)
    ensures
        leading_digits(s) <= s.len(),
    decreases s.len(),
{
    if s.len() > 0 {
        lemma_leading_digits_bounded(s.drop_first());
    }
}

/// Digits in front of something else are counted as the digits in front.
pub proof fn lemma_leading_digits_of(digits: Seq<char>, rest: Seq<char>)
    requires
        all_digits(digits),
        rest.len() > 0 ==> !ascii_digit(rest[0]),
    ensures
        leading_digits(digits + rest) == digits.len(),
    decreases digits.len(),
{
    if digits.len() == 0 {
        assert(digits + rest =~= rest);
    } else {
        let less = digits.drop_first();
        assert(all_digits(less)) by {
            assert forall|i: int| 0 <= i < less.len() implies ascii_digit(#[trigger] less[i]) by {
                assert(less[i] == digits[i + 1]);
            }
        }
        lemma_leading_digits_of(less, rest);
        assert((digits + rest).drop_first() =~= less + rest);
        assert((digits + rest)[0] == digits[0]);
    }
}

proof fn lemma_decimal_number_of(whole: Seq<char>, fraction: Seq<char>, tail: Seq<char>)
    requires
        all_digits(whole),
        all_digits(fraction),
        tail.len() == 0 || exponent(tail),
    ensures
        whole.len() > 0 ==> decimal_number(whole + tail),
        whole.len() + fraction.len() > 0 ==> decimal_number(whole + (seq!['.'] + (fraction + tail))),
{
    lemma_leading_digits_of(whole, tail);
    assert((whole + tail).skip(whole.len() as int) =~= tail);
    let behind = fraction + tail;
    let rest = seq!['.'] + behind;
    lemma_leading_digits_of(whole, rest);
    lemma_leading_digits_of(fraction, tail);
    assert((whole + rest).skip(whole.len() as int) =~= rest);
    assert(rest.drop_first() =~= behind);
    assert(rest.skip(1 + fraction.len() as int) =~= tail);
}

/// The decimal numbers include all that are made of digits with at most one point before, among
/// or behind them, with or without an exponent, of whatever length.
pub proof fn law_decimal_numbers(whole: Seq<char>, fraction: Seq<char>, e: char, sign: char, power: Seq<char>)
    requires
        all_digits(whole),
        all_digits(fraction),
        all_digits(power),
        power.len() > 0,
        e == 'e' || e == 'E',
        sign == '+' || sign == '-',
    ensures
        whole.len() > 0 ==> {
            &&& decimal_number(whole)
            &&& decimal_number(whole + (seq![e] + power))
            &&& decimal_number(whole + (seq![e] + (seq![sign] + power)))
        },
        whole.len() + fraction.len() > 0 ==> {
            &&& decimal_number(whole + (seq!['.'] + fraction))
            &&& decimal_number(whole + (seq!['.'] + (fraction + (seq![e] + power))))
            &&& decimal_number(whole + (seq!['.'] + (fraction + (seq![e] + (seq![sign] + power)))))
        },
{
    let none = Seq::<char>::empty();
    let plain = seq![e] + power;
    let signed = seq![e] + (seq![sign] + power);
    assert(plain.drop_first() =~= power);
    assert(ascii_digit(power[0]));
    assert(unsigned_part(power) == power);
    assert(signed.drop_first() =~= seq![sign] + power);
    assert((seq![sign] + power).drop_first() =~= power);
    lemma_decimal_number_of(whole, fraction, none);
    lemma_decimal_number_of(whole, fraction, plain);
    lemma_decimal_number_of(whole, fraction, signed);
    assert(whole + none =~= whole);
    assert(fraction + none =~= fraction);
}

} // verus!
