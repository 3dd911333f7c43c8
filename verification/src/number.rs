//! Numbers of the language: IEEE 754 double-precision values, held as their
//! 64-bit patterns.
//!
//! Sign, order and equality are read off the bit pattern here. Rounded
//! arithmetic and the conversions from and to decimal text are done by
//! `rustc_apfloat`; their results have names, and the contracts speak of them
//! under those names.
use crate::text::{chars_of, decimal, decimal_chars, string_of};
use rustc_apfloat::ieee::Double;
use rustc_apfloat::Float;
use rustc_apfloat::Round;
use vstd::prelude::*;
use vstd::string::StringExecFns;

verus! {

/// The pattern of the sign bit.
pub const SIGN_BIT: u64 = 0x8000_0000_0000_0000;

/// The pattern of positive infinity: every exponent bit set, no fraction bit.
pub const INFINITY: u64 = 0x7ff0_0000_0000_0000;

/// Whether the sign bit is set.
pub open spec fn is_negative(bits: u64) -> bool {
    bits >= SIGN_BIT
}

/// The pattern without its sign bit.
pub open spec fn magnitude(bits: u64) -> u64 {
    if bits >= SIGN_BIT {
        (bits - SIGN_BIT) as u64
    } else {
        bits
    }
}

/// Whether the pattern is not a number.
pub open spec fn is_nan(bits: u64) -> bool {
    magnitude(bits) > INFINITY
}

/// Whether the pattern is an infinity.
pub open spec fn is_infinite(bits: u64) -> bool {
    magnitude(bits) == INFINITY
}

/// The pattern with its sign bit flipped.
pub open spec fn negated(bits: u64) -> u64 {
    if bits >= SIGN_BIT {
        (bits - SIGN_BIT) as u64
    } else {
        (bits + SIGN_BIT) as u64
    }
}

/// The place of a number among all numbers: patterns of numbers that are not
/// NaN are ordered as these integers are, and both zeros have place 0.
pub open spec fn rank(bits: u64) -> int {
    if bits >= SIGN_BIT {
        -(magnitude(bits) as int)
    } else {
        magnitude(bits) as int
    }
}

/// IEEE equality: NaN equals nothing, and the two zeros are equal.
pub open spec fn same_number(a: u64, b: u64) -> bool {
    !is_nan(a) && !is_nan(b) && rank(a) == rank(b)
}

/// IEEE `<`: false whenever a NaN is involved.
pub open spec fn less_than(a: u64, b: u64) -> bool {
    !is_nan(a) && !is_nan(b) && rank(a) < rank(b)
}

/// IEEE `<=`: false whenever a NaN is involved.
pub open spec fn at_most(a: u64, b: u64) -> bool {
    !is_nan(a) && !is_nan(b) && rank(a) <= rank(b)
}

/// Whether the sign bit is set.
pub fn sign_of(bits: u64) -> (r: bool)
    ensures
        r == is_negative(bits),
{
    bits >= SIGN_BIT
}

/// The pattern without its sign bit.
pub fn magnitude_of(bits: u64) -> (r: u64)
    ensures
        r == magnitude(bits),
{
    if bits >= SIGN_BIT {
        bits - SIGN_BIT
    } else {
        bits
    }
}

/// Whether the pattern is not a number.
pub fn nan(bits: u64) -> (r: bool)
    ensures
        r == is_nan(bits),
{
    magnitude_of(bits) > INFINITY
}

/// Whether the pattern is an infinity.
pub fn infinite(bits: u64) -> (r: bool)
    ensures
        r == is_infinite(bits),
{
    magnitude_of(bits) == INFINITY
}

/// The number with the opposite sign.
pub fn negate(bits: u64) -> (r: u64)
    ensures
        r == negated(bits),
{
    if bits >= SIGN_BIT {
        bits - SIGN_BIT
    } else {
        bits + SIGN_BIT
    }
}

/// Whether two numbers are equal, as IEEE 754 has it.
pub fn equal(a: u64, b: u64) -> (r: bool)
    ensures
        r == same_number(a, b),
{
    if nan(a) || nan(b) {
        return false;
    }
    let x = magnitude_of(a);
    let y = magnitude_of(b);
    x == y && (x == 0 || sign_of(a) == sign_of(b))
}

/// Whether the first number is less than the second, as IEEE 754 has it.
pub fn less(a: u64, b: u64) -> (r: bool)
    ensures
        r == less_than(a, b),
{
    if nan(a) || nan(b) {
        return false;
    }
    let x = magnitude_of(a);
    let y = magnitude_of(b);
    if sign_of(a) {
        if sign_of(b) {
            y < x
        } else {
            x != 0 || y != 0
        }
    } else {
        !sign_of(b) && x < y
    }
}

/// Whether the first number is at most the second, as IEEE 754 has it.
pub fn less_or_equal(a: u64, b: u64) -> (r: bool)
    ensures
        r == at_most(a, b),
{
    less(a, b) || equal(a, b)
}

/// The sum of two numbers, rounded to the nearest double, ties to even.
pub uninterp spec fn number_sum(a: u64, b: u64) -> u64;

/// The difference of two numbers, rounded to the nearest double, ties to even.
pub uninterp spec fn number_difference(a: u64, b: u64) -> u64;

/// The product of two numbers, rounded to the nearest double, ties to even.
pub uninterp spec fn number_product(a: u64, b: u64) -> u64;

/// The quotient of two numbers, rounded to the nearest double, ties to even.
pub uninterp spec fn number_quotient(a: u64, b: u64) -> u64;

/// `Float::add_r` of `rustc_apfloat`, on `ieee::Double`, rounding to nearest
/// with ties to even: the pattern of the sum of the two doubles whose
/// patterns are given. The status flags of the operation are dropped.
#[verifier::external_body]
pub(crate) fn sum(a: u64, b: u64) -> (r: u64)
    ensures
        r == number_sum(a, b),
{
    let x = Double::from_bits(a as u128);
    let y = Double::from_bits(b as u128);
    x.add_r(y, Round::NearestTiesToEven).value.to_bits() as u64
}

/// `Float::sub_r` of `rustc_apfloat`, on `ieee::Double`, rounding to nearest
/// with ties to even: the pattern of the first double less the second.
#[verifier::external_body]
pub(crate) fn difference(a: u64, b: u64) -> (r: u64)
    ensures
        r == number_difference(a, b),
{
    let x = Double::from_bits(a as u128);
    let y = Double::from_bits(b as u128);
    x.sub_r(y, Round::NearestTiesToEven).value.to_bits() as u64
}

/// `Float::mul_r` of `rustc_apfloat`, on `ieee::Double`, rounding to nearest
/// with ties to even: the pattern of the product of the two doubles.
#[verifier::external_body]
pub(crate) fn product(a: u64, b: u64) -> (r: u64)
    ensures
        r == number_product(a, b),
{
    let x = Double::from_bits(a as u128);
    let y = Double::from_bits(b as u128);
    x.mul_r(y, Round::NearestTiesToEven).value.to_bits() as u64
}

/// `Float::div_r` of `rustc_apfloat`, on `ieee::Double`, rounding to nearest
/// with ties to even: the pattern of the first double divided by the second.
/// Division by zero gives an infinity or NaN, as IEEE 754 has it.
#[verifier::external_body]
pub(crate) fn quotient(a: u64, b: u64) -> (r: u64)
    ensures
        r == number_quotient(a, b),
{
    let x = Double::from_bits(a as u128);
    let y = Double::from_bits(b as u128);
    x.div_r(y, Round::NearestTiesToEven).value.to_bits() as u64
}

/// Whether `c` is one of the ten decimal digits.
pub open spec fn is_digit(c: char) -> bool {
    '0' <= c <= '9'
}

/// Whether every character of `s` is a decimal digit.
pub open spec fn all_digits(s: Seq<char>) -> bool {
    forall|i: int| 0 <= i < s.len() ==> is_digit(#[trigger] s[i])
}

/// Whether `s` is a number literal: one or more digits, optionally followed by
/// a point and one or more digits.
pub open spec fn is_numeral(s: Seq<char>) -> bool {
    ||| s.len() > 0 && all_digits(s)
    ||| exists|k: int|
        0 < k < s.len() - 1 && all_digits(s.take(k)) && #[trigger] s[k] == '.' && all_digits(
            s.skip(k + 1),
        )
}

/// Whether `c` is one of the ten decimal digits.
pub fn digit(c: char) -> (r: bool)
    ensures
        r == is_digit(c),
{
    '0' <= c && c <= '9'
}

/// Whether `text` is a number literal.
pub fn numeral(text: &str) -> (r: bool)
    ensures
        r == is_numeral(text@),
{
    let chars = chars_of(text);
    let n = chars.len();
    let ghost s = chars@;
    let mut k: usize = 0;
    while k < n && digit(chars[k])
        invariant
            k <= n,
            n == chars.len(),
            s == chars@,
            forall|i: int| 0 <= i < k ==> is_digit(#[trigger] s[i]),
        decreases n - k,
    {
        k += 1;
    }
    if k == n {
        return n > 0;
    }
    assert(!all_digits(s)) by {
        assert(!is_digit(s[k as int]));
    }
    assert forall|j: int|
        0 < j < s.len() - 1 && all_digits(s.take(j)) && #[trigger] s[j] == '.' && all_digits(
            s.skip(j + 1),
        ) implies j == k by {
        if j < k {
            assert(is_digit(s[j]));
        } else if j > k {
            assert(s.take(j)[k as int] == s[k as int]);
        }
    }
    if chars[k] != '.' || k == 0 || k + 1 >= n {
        return false;
    }
    let rest = digits_only(&chars, k + 1, n);
    proof {
        assert(s.subrange(k + 1, n as int) =~= s.skip(k + 1));
        if rest {
            assert forall|i: int| 0 <= i < s.take(k as int).len() implies is_digit(
                #[trigger] s.take(k as int)[i],
            ) by {
                assert(s.take(k as int)[i] == s[i]);
            }
        }
    }
    rest
}

/// The number that a text denotes, where it denotes one.
pub uninterp spec fn number_of_text(text: Seq<char>) -> Option<u64>;

/// A number in scientific notation, written with at most `precision`
/// significant digits.
pub uninterp spec fn scientific_text(bits: u64, precision: nat) -> Seq<char>;

/// `Float::from_str_r` of `rustc_apfloat`, on `ieee::Double`, rounding to
/// nearest with ties to even: the pattern of the double that the text
/// denotes, or nothing where the text is refused. A text of digits with at
/// most one point among them, and digits on both sides of it, is never
/// refused.
#[verifier::external_body]
pub(crate) fn parse(text: &str) -> (r: Option<u64>)
    ensures
        r == number_of_text(text@),
        is_numeral(text@) ==> r is Some,
{
    match Double::from_str_r(text, Round::NearestTiesToEven) {
        Ok(found) => Some(found.value.to_bits() as u64),
        Err(_) => None,
    }
}

/// The `Display` impl of `rustc_apfloat`'s `ieee::Double`, asked for scientific
/// notation (width 0) with the given precision: the text that it writes for
/// the double with the given pattern.
#[verifier::external_body]
pub(crate) fn scientific(bits: u64, precision: usize) -> (r: String)
    requires
        1 <= precision <= 1000,
    ensures
        r@ == scientific_text(bits, precision as nat),
{
    format!("{:1$.2$}", Double::from_bits(bits as u128), 0, precision)
}

/// The first index at or after `from` at which `c` stands in `s`, or the
/// length of `s` where there is none.
pub open spec fn first_at(s: Seq<char>, c: char, from: int) -> int
    decreases s.len() - from,
{
    if from < 0 || from >= s.len() {
        s.len() as int
    } else if s[from] == c {
        from
    } else {
        first_at(s, c, from + 1)
    }
}

/// The value of a decimal digit.
pub open spec fn digit_value(c: char) -> nat {
    (c as nat - '0' as nat) as nat
}

/// The number that a sequence of decimal digits spells.
pub open spec fn digits_value(s: Seq<char>) -> nat
    decreases s.len(),
{
    if s.len() == 0 {
        0
    } else {
        digits_value(s.drop_last()) * 10 + digit_value(s.last())
    }
}

/// `s` without the zeros at its end.
pub open spec fn trimmed(s: Seq<char>) -> Seq<char>
    decreases s.len(),
{
    if s.len() > 0 && s.last() == '0' {
        trimmed(s.drop_last())
    } else {
        s
    }
}

/// `n` zeros.
pub open spec fn zeros(n: int) -> Seq<char> {
    Seq::new(if n > 0 { n as nat } else { 0 }, |i: int| '0')
}

/// A text without its leading minus sign.
pub open spec fn unsigned_part(text: Seq<char>) -> Seq<char> {
    if text.len() > 0 && text[0] == '-' {
        text.skip(1)
    } else {
        text
    }
}

/// Whether `text` is in scientific notation: an optional minus sign, one
/// digit, a point, one or more digits, `E`, a sign and one to four digits.
pub open spec fn is_scientific(text: Seq<char>) -> bool {
    let body = unsigned_part(text);
    let e = first_at(body, 'E', 0);
    let power = body.skip(e + 1);
    &&& 3 <= e < body.len()
    &&& is_digit(body[0])
    &&& body[1] == '.'
    &&& all_digits(body.subrange(2, e))
    &&& 2 <= power.len() <= 5
    &&& (power[0] == '+' || power[0] == '-')
    &&& all_digits(power.skip(1))
}

/// The significant digits of a text in scientific notation, without the
/// zeros at their end.
pub open spec fn significant_digits(text: Seq<char>) -> Seq<char> {
    let body = unsigned_part(text);
    let e = first_at(body, 'E', 0);
    trimmed(seq![body[0]] + body.subrange(2, e))
}

/// The power of ten of a text in scientific notation.
pub open spec fn decimal_exponent(text: Seq<char>) -> int {
    let body = unsigned_part(text);
    let power = body.skip(first_at(body, 'E', 0) + 1);
    if power[0] == '-' {
        -(digits_value(power.skip(1)) as int)
    } else {
        digits_value(power.skip(1)) as int
    }
}

/// The digits with a decimal point `point` places after their start, zeros
/// filled in as far as needed: `0.0012`, `12.34`, `1200`.
pub open spec fn positional(digits: Seq<char>, point: int) -> Seq<char> {
    if point <= 0 {
        seq!['0', '.'] + zeros(-point) + digits
    } else if point < digits.len() {
        digits.take(point) + seq!['.'] + digits.skip(point)
    } else {
        digits + zeros(point - digits.len())
    }
}

/// The sign of a text as a prefix: `-` or nothing.
pub open spec fn sign_prefix(text: Seq<char>) -> Seq<char> {
    if text.len() > 0 && text[0] == '-' {
        seq!['-']
    } else {
        Seq::empty()
    }
}

/// The digit after `c`, for a digit below nine.
pub open spec fn next_digit(c: char) -> char {
    if c == '0' {
        '1'
    } else if c == '1' {
        '2'
    } else if c == '2' {
        '3'
    } else if c == '3' {
        '4'
    } else if c == '4' {
        '5'
    } else if c == '5' {
        '6'
    } else if c == '6' {
        '7'
    } else if c == '7' {
        '8'
    } else {
        '9'
    }
}

/// The digits of the number that is one more than the number that `s`
/// spells. It is one digit longer than `s` where `s` holds nines only.
pub open spec fn incremented(s: Seq<char>) -> Seq<char>
    decreases s.len(),
{
    if s.len() == 0 {
        seq!['1']
    } else if s.last() == '9' {
        incremented(s.drop_last()).push('0')
    } else {
        s.drop_last().push(next_digit(s.last()))
    }
}

/// One of the two numerals of `count` places between which the digits lie:
/// the first `count` digits, or one added to them. The second is one digit
/// longer where adding one carried through all of them. Digits of no more
/// than `count` places are both numerals.
pub open spec fn neighbour(digits: Seq<char>, count: nat, above: bool) -> Seq<char> {
    if digits.len() <= count {
        digits
    } else if above {
        incremented(digits.take(count as int))
    } else {
        digits.take(count as int)
    }
}

/// Whether the digits lie at least as near to the numeral of `count` places
/// above them as to the one below: the digit that follows is 5 or more.
pub open spec fn nearer_above(digits: Seq<char>, count: nat) -> bool {
    digits.len() > count && digits[count as int] >= '5'
}

/// The digits rounded to `count` places, half up: the nearer of the two
/// numerals of `count` places between which they lie, the one above where
/// they lie midway.
pub open spec fn rounded(digits: Seq<char>, count: nat) -> Seq<char> {
    neighbour(digits, count, nearer_above(digits, count))
}

/// By how much going to a numeral of `count` places raises the power of ten:
/// by one where adding one carried through all digits, else not at all.
pub open spec fn raised(digits: Seq<char>, count: nat, above: bool) -> int {
    if neighbour(digits, count, above).len() > count {
        1
    } else {
        0
    }
}

/// A number written in scientific notation from its parts: the first digit,
/// a point, the other digits or a zero where there are none, `E`, and the
/// power of ten with its sign.
pub open spec fn scientific_form(negative: bool, digits: Seq<char>, exponent: int) -> Seq<char> {
    let sign = if negative {
        seq!['-']
    } else {
        Seq::empty()
    };
    let fraction = if digits.len() > 1 {
        digits.skip(1)
    } else {
        seq!['0']
    };
    let power = if exponent < 0 {
        seq!['-'] + decimal((-exponent) as nat)
    } else {
        seq!['+'] + decimal(exponent as nat)
    };
    sign + seq![digits[0], '.'] + fraction + seq!['E'] + power
}

/// Whether the numeral of `count` places below or above the digits denotes
/// the number whose pattern is `bits`.
pub open spec fn denotes(
    bits: u64,
    negative: bool,
    digits: Seq<char>,
    exponent: int,
    count: nat,
    above: bool,
) -> bool {
    number_of_text(
        scientific_form(
            negative,
            neighbour(digits, count, above),
            exponent + raised(digits, count, above),
        ),
    ) == Some(bits)
}

/// Where digits are cut: after how many places, and whether one is added.
pub struct Cut {
    pub count: nat,
    pub above: bool,
}

/// The cut, at `count` places or more, that gives the numeral of fewest
/// digits that denotes the number whose pattern is `bits`. Of the two
/// numerals of as many places the nearer to the digits is taken where it
/// denotes the number, else the other. With 17 places the nearer is taken
/// without asking.
pub open spec fn shortest_cut(
    bits: u64,
    negative: bool,
    digits: Seq<char>,
    exponent: int,
    count: nat,
) -> Cut
    decreases 17 - count,
{
    let near = nearer_above(digits, count);
    if count >= 17 || denotes(bits, negative, digits, exponent, count, near) {
        Cut { count, above: near }
    } else if denotes(bits, negative, digits, exponent, count, !near) {
        Cut { count, above: !near }
    } else {
        shortest_cut(bits, negative, digits, exponent, count + 1)
    }
}

/// No numeral of fewer places than the shortest cut has, below or above the
/// digits, denotes the number; and the numeral of the shortest cut denotes it
/// where the cut has fewer than 17 places.
pub proof fn lemma_shortest_cut_is_least(
    bits: u64,
    negative: bool,
    digits: Seq<char>,
    exponent: int,
    count: nat,
)
    ensures
        ({
            let cut = shortest_cut(bits, negative, digits, exponent, count);
            &&& count <= cut.count
            &&& count <= 17 ==> cut.count <= 17
            &&& forall|fewer: nat, above: bool|
                count <= fewer < cut.count ==> !#[trigger] denotes(
                    bits,
                    negative,
                    digits,
                    exponent,
                    fewer,
                    above,
                )
            &&& cut.count < 17 ==> denotes(bits, negative, digits, exponent, cut.count, cut.above)
        }),
    decreases 17 - count,
{
    let near = nearer_above(digits, count);
    if !(count >= 17 || denotes(bits, negative, digits, exponent, count, near)) && !denotes(
        bits,
        negative,
        digits,
        exponent,
        count,
        !near,
    ) {
        lemma_shortest_cut_is_least(bits, negative, digits, exponent, count + 1);
    }
}

/// The numeral of fewest digits that denotes the number whose pattern is
/// `bits`, written without an exponent, given the numeral `exact` of that
/// number in scientific notation. Of two numerals of as few digits the one
/// nearer to `exact` is given. A text that is not in scientific notation is
/// handed back as it is.
pub open spec fn shortest_text(bits: u64, exact: Seq<char>) -> Seq<char> {
    if !is_scientific(exact) {
        exact
    } else if significant_digits(exact).len() == 0 {
        sign_prefix(exact).push('0')
    } else {
        let digits = significant_digits(exact);
        let exponent = decimal_exponent(exact);
        let cut = shortest_cut(bits, sign_prefix(exact).len() > 0, digits, exponent, 1);
        sign_prefix(exact) + positional(
            trimmed(neighbour(digits, cut.count, cut.above)),
            exponent + raised(digits, cut.count, cut.above) + 1,
        )
    }
}

/// The number of digits that is asked of the outside conversion: more than
/// the decimal expansion of any double has.
pub const EXACT: usize = 800;

/// How a number is displayed: `NaN`, `inf`, `-inf`, or the decimal numeral
/// of fewest digits that denotes it, written without an exponent. That
/// numeral is sought among the numerals next below and next above the exact
/// digits of the number, with 1 to 17 places.
pub open spec fn number_text(bits: u64) -> Seq<char> {
    if is_nan(bits) {
        "NaN"@
    } else if is_infinite(bits) {
        if is_negative(bits) {
            "-inf"@
        } else {
            "inf"@
        }
    } else {
        shortest_text(bits, scientific_text(bits, EXACT as nat))
    }
}

/// Whether the characters from `from` up to `to` are digits.
fn digits_only(chars: &Vec<char>, from: usize, to: usize) -> (r: bool)
    requires
        from <= to <= chars.len(),
    ensures
        r == all_digits(chars@.subrange(from as int, to as int)),
{
    let ghost part = chars@.subrange(from as int, to as int);
    let mut i: usize = from;
    while i < to
        invariant
            from <= i <= to <= chars.len(),
            part == chars@.subrange(from as int, to as int),
            forall|j: int| 0 <= j < i - from ==> is_digit(#[trigger] part[j]),
        decreases to - i,
    {
        if !digit(chars[i]) {
            assert(!is_digit(part[i - from]));
            return false;
        }
        i += 1;
    }
    true
}

/// The number that the digits from `from` up to `to` spell.
fn value_of(chars: &Vec<char>, from: usize, to: usize) -> (r: usize)
    requires
        from <= to <= chars.len(),
        to - from <= 4,
        all_digits(chars@.subrange(from as int, to as int)),
    ensures
        r == digits_value(chars@.subrange(from as int, to as int)),
        r < 10000,
{
    let ghost part = chars@.subrange(from as int, to as int);
    let mut value: usize = 0;
    let mut i: usize = from;
    assert(part.take(0).len() == 0);
    while i < to
        invariant
            from <= i <= to <= chars.len(),
            to - from <= 4,
            part == chars@.subrange(from as int, to as int),
            all_digits(part),
            value == digits_value(part.take(i - from)),
            i - from == 0 ==> value < 1,
            i - from == 1 ==> value < 10,
            i - from == 2 ==> value < 100,
            i - from == 3 ==> value < 1000,
            value < 10000,
        decreases to - i,
    {
        let c = chars[i];
        assert(c == part[i - from]);
        assert(is_digit(c));
        let d: usize = (c as u32 - '0' as u32) as usize;
        assert(part.take(i - from + 1).drop_last() =~= part.take(i - from));
        assert(part.take(i - from + 1).last() == c);
        value = value * 10 + d;
        i += 1;
    }
    assert(part.take(to - from) =~= part);
    value
}

/// Appends `count` zeros.
fn push_zeros(out: &mut Vec<char>, count: usize)
    ensures
        final(out)@ == old(out)@ + zeros(count as int),
{
    let mut i: usize = 0;
    while i < count
        invariant
            i <= count,
            out@ == old(out)@ + zeros(i as int),
        decreases count - i,
    {
        out.push('0');
        assert(out@ =~= old(out)@ + zeros(i + 1));
        i += 1;
    }
    assert(old(out)@ + zeros(0) =~= old(out)@);
}

/// Appends the characters of `chars` from `from` up to `to`.
fn push_range(out: &mut Vec<char>, chars: &Vec<char>, from: usize, to: usize)
    requires
        from <= to <= chars.len(),
    ensures
        final(out)@ == old(out)@ + chars@.subrange(from as int, to as int),
{
    let mut i: usize = from;
    assert(old(out)@ + chars@.subrange(from as int, from as int) =~= old(out)@);
    while i < to
        invariant
            from <= i <= to <= chars.len(),
            out@ == old(out)@ + chars@.subrange(from as int, i as int),
        decreases to - i,
    {
        out.push(chars[i]);
        assert(out@ =~= old(out)@ + chars@.subrange(from as int, i + 1));
        i += 1;
    }
}

/// The digits with the decimal point `point` places after their start.
fn place(digits: &Vec<char>, point: isize) -> (r: Vec<char>)
    requires
        -20000 <= point <= 20000,
    ensures
        r@ == positional(digits@, point as int),
{
    let mut out: Vec<char> = Vec::new();
    let n = digits.len();
    if point <= 0 {
        out.push('0');
        out.push('.');
        assert(out@ =~= seq!['0', '.']);
        push_zeros(&mut out, (-point) as usize);
        push_range(&mut out, digits, 0, n);
        assert(digits@.subrange(0, n as int) =~= digits@);
    } else if (point as usize) < n {
        let k = point as usize;
        push_range(&mut out, digits, 0, k);
        out.push('.');
        push_range(&mut out, digits, k, n);
        assert(out@ =~= digits@.take(k as int) + seq!['.'] + digits@.skip(k as int));
    } else {
        push_range(&mut out, digits, 0, n);
        push_zeros(&mut out, point as usize - n);
        assert(digits@.subrange(0, n as int) =~= digits@);
        assert(out@ =~= digits@ + zeros(point - n));
    }
    out
}

/// The parts of a numeral in scientific notation.
pub struct Parts {
    /// Whether the numeral has a minus sign.
    pub negative: bool,
    /// The significant digits, without the zeros at their end.
    pub digits: Vec<char>,
    /// The power of ten.
    pub exponent: isize,
}

/// Reads a numeral in scientific notation into its parts. Gives nothing for
/// a text that is not in scientific notation.
pub fn read_scientific(text: &str) -> (r: Option<Parts>)
    ensures
        r is Some == is_scientific(text@),
        r matches Some(parts) ==> parts.negative == (sign_prefix(text@).len() > 0)
            && parts.digits@ == significant_digits(text@) && parts.exponent
            == decimal_exponent(text@) && -10000 < parts.exponent < 10000,
{
    let chars = chars_of(text);
    let n = chars.len();
    let negative = n > 0 && chars[0] == '-';
    let start: usize = if negative {
        1
    } else {
        0
    };
    let ghost body = unsigned_part(text@);
    assert(body =~= chars@.subrange(start as int, n as int));
    let mut e: usize = start;
    while e < n && chars[e] != 'E'
        invariant
            start <= e <= n,
            n == chars.len(),
            body == chars@.subrange(start as int, n as int),
            first_at(body, 'E', 0) == first_at(body, 'E', e - start),
        decreases n - e,
    {
        assert(body[e - start] == chars[e as int]);
        e += 1;
    }
    assert(first_at(body, 'E', 0) == e - start) by {
        if e < n {
            assert(body[e - start] == chars[e as int]);
        }
    }
    if e - start < 3 || e >= n {
        return None;
    }
    let ghost power = body.skip(e - start + 1);
    assert(power =~= chars@.subrange(e + 1, n as int));
    if n - e - 1 < 2 || n - e - 1 > 5 {
        return None;
    }
    assert(body[0] == chars[start as int]);
    assert(body[1] == chars[start + 1]);
    assert(power[0] == chars[e + 1]);
    assert(body.subrange(2, e - start) =~= chars@.subrange(start + 2, e as int));
    assert(power.skip(1) =~= chars@.subrange(e + 2, n as int));
    if !digit(chars[start]) || chars[start + 1] != '.' || !digits_only(&chars, start + 2, e) || (
    chars[e + 1] != '+' && chars[e + 1] != '-') || !digits_only(&chars, e + 2, n) {
        return None;
    }
    assert(is_scientific(text@));
    let size = value_of(&chars, e + 2, n);
    let exponent: isize = if chars[e + 1] == '-' {
        -(size as isize)
    } else {
        size as isize
    };
    let mut digits: Vec<char> = Vec::new();
    digits.push(chars[start]);
    assert(digits@ =~= seq![body[0]]);
    push_range(&mut digits, &chars, start + 2, e);
    trim(&mut digits);
    Some(Parts { negative, digits, exponent })
}

/// Drops the zeros at the end of the digits.
fn trim(digits: &mut Vec<char>)
    ensures
        final(digits)@ == trimmed(old(digits)@),
{
    while digits.len() > 0 && digits[digits.len() - 1] == '0'
        invariant
            trimmed(digits@) == trimmed(old(digits)@),
        decreases digits.len(),
    {
        digits.pop();
    }
}

/// The digit after `c`.
fn successor(c: char) -> (r: char)
    ensures
        r == next_digit(c),
{
    if c == '0' {
        '1'
    } else if c == '1' {
        '2'
    } else if c == '2' {
        '3'
    } else if c == '3' {
        '4'
    } else if c == '4' {
        '5'
    } else if c == '5' {
        '6'
    } else if c == '6' {
        '7'
    } else if c == '7' {
        '8'
    } else {
        '9'
    }
}

/// Adding one turns the nines at the end into zeros and adds one to what
/// stands before them.
proof fn lemma_incremented_nines(s: Seq<char>, k: int)
    requires
        0 <= k <= s.len(),
        forall|i: int| k <= i < s.len() ==> s[i] == '9',
    ensures
        incremented(s) == incremented(s.take(k)) + zeros(s.len() - k),
    decreases s.len() - k,
{
    if k == s.len() {
        assert(s.take(k) =~= s);
        assert(incremented(s) + zeros(0) =~= incremented(s));
    } else {
        let shorter = s.drop_last();
        assert(s.last() == '9');
        lemma_incremented_nines(shorter, k);
        assert(shorter.take(k) =~= s.take(k));
        assert((incremented(s.take(k)) + zeros(shorter.len() - k)).push('0') =~= incremented(
            s.take(k),
        ) + zeros(s.len() - k));
    }
}

/// The digits of the number that is one more than the number that the digits
/// spell.
pub fn increment(digits: &Vec<char>) -> (r: Vec<char>)
    ensures
        r@ == incremented(digits@),
{
    let n = digits.len();
    let mut k: usize = n;
    while k > 0 && digits[k - 1] == '9'
        invariant
            k <= n,
            n == digits.len(),
            forall|i: int| k <= i < n ==> digits@[i] == '9',
        decreases k,
    {
        k -= 1;
    }
    let mut out: Vec<char> = Vec::new();
    if k == 0 {
        out.push('1');
        assert(out@ =~= incremented(digits@.take(0)));
    } else {
        push_range(&mut out, digits, 0, k - 1);
        out.push(successor(digits[k - 1]));
        proof {
            let head = digits@.take(k as int);
            assert(head.drop_last() =~= digits@.subrange(0, k - 1));
            assert(head.last() == digits@[k - 1]);
        }
    }
    proof {
        lemma_incremented_nines(digits@, k as int);
    }
    push_zeros(&mut out, n - k);
    out
}

/// The numeral of `count` places below the digits, or the one above them.
pub fn neighbour_of(digits: &Vec<char>, count: usize, above: bool) -> (r: Vec<char>)
    ensures
        r@ == neighbour(digits@, count as nat, above),
{
    let mut head: Vec<char> = Vec::new();
    if digits.len() <= count {
        push_range(&mut head, digits, 0, digits.len());
        assert(head@ =~= digits@);
        return head;
    }
    push_range(&mut head, digits, 0, count);
    assert(head@ =~= digits@.take(count as int));
    if above {
        increment(&head)
    } else {
        head
    }
}

/// Whether the digits lie at least as near to the numeral of `count` places
/// above them as to the one below.
pub fn nearer(digits: &Vec<char>, count: usize) -> (r: bool)
    ensures
        r == nearer_above(digits@, count as nat),
{
    digits.len() > count && digits[count] >= '5'
}

/// The digits rounded to `count` places, half up.
pub fn round(digits: &Vec<char>, count: usize) -> (r: Vec<char>)
    ensures
        r@ == rounded(digits@, count as nat),
{
    neighbour_of(digits, count, nearer(digits, count))
}

/// Writes a number in scientific notation from its parts.
pub fn compose(negative: bool, digits: &Vec<char>, exponent: isize) -> (r: String)
    requires
        digits.len() > 0,
        -20000 <= exponent <= 20000,
    ensures
        r@ == scientific_form(negative, digits@, exponent as int),
{
    let mut out: Vec<char> = Vec::new();
    if negative {
        out.push('-');
    }
    out.push(digits[0]);
    out.push('.');
    if digits.len() > 1 {
        push_range(&mut out, digits, 1, digits.len());
        assert(digits@.subrange(1, digits.len() as int) =~= digits@.skip(1));
    } else {
        out.push('0');
    }
    out.push('E');
    let size: usize = if exponent < 0 {
        out.push('-');
        (-exponent) as usize
    } else {
        out.push('+');
        exponent as usize
    };
    let mut power = decimal_chars(size);
    out.append(&mut power);
    assert(out@ =~= scientific_form(negative, digits@, exponent as int));
    string_of(out.as_slice())
}

/// Whether the numeral of `count` places below or above the digits of
/// `parts` denotes the number whose pattern is `bits`.
fn reads_back(bits: u64, parts: &Parts, count: usize, above: bool) -> (r: bool)
    requires
        parts.digits.len() > 0,
        1 <= count <= 17,
        -10000 < parts.exponent < 10000,
    ensures
        r == denotes(
            bits,
            parts.negative,
            parts.digits@,
            parts.exponent as int,
            count as nat,
            above,
        ),
{
    let found = neighbour_of(&parts.digits, count, above);
    let power: isize = if found.len() > count {
        parts.exponent + 1
    } else {
        parts.exponent
    };
    proof {
        lemma_neighbour_is_not_empty(parts.digits@, count as nat, above);
    }
    let text = compose(parts.negative, &found, power);
    parse(text.as_str()) == Some(bits)
}

/// The numeral of fewest digits that denotes the number whose pattern is
/// `bits`, given the numeral of that number in scientific notation.
pub fn shorten(bits: u64, exact: &str) -> (r: String)
    ensures
        r@ == shortest_text(bits, exact@),
{
    let parts = match read_scientific(exact) {
        Some(parts) => parts,
        None => {
            return String::from_str(exact);
        },
    };
    let mut out: Vec<char> = Vec::new();
    if parts.negative {
        out.push('-');
    }
    assert(out@ =~= sign_prefix(exact@));
    if parts.digits.len() == 0 {
        out.push('0');
        return string_of(out.as_slice());
    }
    let ghost digits = parts.digits@;
    let ghost exponent = parts.exponent as int;
    let mut count: usize = 1;
    let mut above = nearer(&parts.digits, count);
    loop
        invariant_except_break
            1 <= count <= 17,
            digits == parts.digits@,
            digits.len() > 0,
            exponent == parts.exponent,
            -10000 < exponent < 10000,
            shortest_cut(bits, parts.negative, digits, exponent, 1) == shortest_cut(
                bits,
                parts.negative,
                digits,
                exponent,
                count as nat,
            ),
        ensures
            1 <= count <= 17,
            shortest_cut(bits, parts.negative, parts.digits@, parts.exponent as int, 1) == (Cut {
                count: count as nat,
                above,
            }),
        decreases 17 - count,
    {
        above = nearer(&parts.digits, count);
        if count >= 17 || reads_back(bits, &parts, count, above) {
            break ;
        }
        if reads_back(bits, &parts, count, !above) {
            above = !above;
            break ;
        }
        count += 1;
    }
    let mut found = neighbour_of(&parts.digits, count, above);
    let power: isize = if found.len() > count {
        parts.exponent + 1
    } else {
        parts.exponent
    };
    trim(&mut found);
    let mut placed = place(&found, power + 1);
    out.append(&mut placed);
    string_of(out.as_slice())
}

/// One more than a number has at least one digit.
proof fn lemma_incremented_is_not_empty(s: Seq<char>)
    ensures
        incremented(s).len() > 0,
    decreases s.len(),
{
    if s.len() > 0 && s.last() == '9' {
        lemma_incremented_is_not_empty(s.drop_last());
    }
}

/// A numeral of one place or more beside digits has at least one digit.
proof fn lemma_neighbour_is_not_empty(digits: Seq<char>, count: nat, above: bool)
    requires
        digits.len() > 0,
        count > 0,
    ensures
        neighbour(digits, count, above).len() > 0,
{
    lemma_incremented_is_not_empty(digits.take(count as int));
}

/// The text under which a number is displayed.
pub fn to_text(bits: u64) -> (r: String)
    ensures
        r@ == number_text(bits),
{
    if nan(bits) {
        String::from_str("NaN")
    } else if infinite(bits) {
        if sign_of(bits) {
            String::from_str("-inf")
        } else {
            String::from_str("inf")
        }
    } else {
        let exact = scientific(bits, EXACT);
        shorten(bits, exact.as_str())
    }
}

} // verus!
