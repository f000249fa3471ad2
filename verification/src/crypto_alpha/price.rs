//! Prices as they are written in a question.
use crate::text;
use vstd::prelude::*;

verus! {

use crate::rounding::{lemma_pow10_positive, lemma_pow10_sum, pow10};
use crate::text::{ascii_lower, is_ascii_alphanumeric, is_ascii_digit, same_ignoring_case, words_of};

/// 2^43.
pub const FINE_HALVES: i128 = 8_796_093_022_208;

/// 2^42.
pub const COARSE_HALVES: i128 = 4_398_046_511_104;

/// A price as it was written: a number, and the power of ten that its suffix stands for.
#[derive(Debug)]
pub struct Price {
    pub number: Vec<char>,
    pub power: u32,
}

/// What a written price says.
pub struct PriceRecord {
    pub number: Seq<char>,
    pub power: nat,
}

impl View for Price {
    type V = PriceRecord;

    open spec fn view(&self) -> PriceRecord {
        PriceRecord { number: self.number@, power: self.power as nat }
    }
}

/// What a number literal stands for.
pub enum Literal {
    /// An infinity, or no number at all.
    Special,
    /// The digits as an integer, times ten to the power of `shift`.
    Finite { negative: bool, digits: Seq<char>, shift: int },
}

/// How many digits the text starts with.
pub open spec fn digits_len(text: Seq<char>) -> nat
    decreases text.len(),
{
    if text.len() == 0 || !is_ascii_digit(text[0]) {
        0
    } else {
        1 + digits_len(text.drop_first())
    }
}

/// The number that a row of digits stands for.
pub open spec fn digits_value(digits: Seq<char>) -> int
    decreases digits.len(),
{
    if digits.len() == 0 {
        0
    } else {
        10 * digits_value(digits.drop_last()) + (digits.last() as int - '0' as int)
    }
}

pub open spec fn is_sign(c: char) -> bool {
    c == '+' || c == '-'
}

pub open spec fn unsigned(text: Seq<char>) -> Seq<char> {
    if text.len() > 0 && is_sign(text[0]) {
        text.drop_first()
    } else {
        text
    }
}

pub open spec fn negative(text: Seq<char>) -> bool {
    text.len() > 0 && text[0] == '-'
}

/// The exponent that ends a literal: nothing, or `e` and an integer.
pub open spec fn exponent_of(text: Seq<char>) -> Option<int> {
    if text.len() == 0 {
        Some(0)
    } else if ascii_lower(text[0]) != 'e' {
        None
    } else {
        let digits = unsigned(text.drop_first());
        if digits.len() == 0 || digits_len(digits) != digits.len() {
            None
        } else if negative(text.drop_first()) {
            Some(-digits_value(digits))
        } else {
            Some(digits_value(digits))
        }
    }
}

/// A literal without its sign: digits with a point among them or not, and an exponent.
pub open spec fn unsigned_literal(text: Seq<char>, negative: bool) -> Option<Literal> {
    if same_ignoring_case(text, "inf"@) || same_ignoring_case(text, "infinity"@)
        || same_ignoring_case(text, "nan"@) {
        Some(Literal::Special)
    } else {
        let whole = digits_len(text) as int;
        let after = text.skip(whole);
        let fraction = if after.len() > 0 && after[0] == '.' {
            after.drop_first().take(digits_len(after.drop_first()) as int)
        } else {
            Seq::empty()
        };
        let rest = if after.len() > 0 && after[0] == '.' {
            after.drop_first().skip(digits_len(after.drop_first()) as int)
        } else {
            after
        };
        match exponent_of(rest) {
            Some(e) => if whole + fraction.len() == 0 {
                None
            } else {
                Some(
                    Literal::Finite {
                        negative,
                        digits: text.take(whole) + fraction,
                        shift: e - fraction.len(),
                    },
                )
            },
            None => None,
        }
    }
}

/// What a text stands for as a number literal, if it is one.
pub open spec fn literal_of(text: Seq<char>) -> Option<Literal> {
    unsigned_literal(unsigned(text), negative(text))
}

/// How many times the half of the step from a whole number to the next larger 64-bit floating-point
/// number goes into one. The steps are 2^-42 from 1024 on and 2^-41 from 2048 on.
pub open spec fn halves_above(n: int) -> int {
    if n < 2048 {
        FINE_HALVES as int
    } else {
        COARSE_HALVES as int
    }
}

/// The same for the step to the next smaller floating-point number.
pub open spec fn halves_below(n: int) -> int {
    if n <= 2048 {
        FINE_HALVES as int
    } else {
        COARSE_HALVES as int
    }
}

/// `d` times ten to the power of `shift` is read as the whole number `n`, from 1024 to 4095: of the
/// 64-bit floating-point numbers none is nearer. One that is just as near gives way to `n`, which is
/// the even one of the two.
pub open spec fn reads_as(d: int, shift: int, n: int) -> bool {
    if shift >= 0 {
        d * pow10(shift as nat) == n
    } else {
        let p = pow10((-shift) as nat);
        (d - n * p) * halves_above(n) <= p && (n * p - d) * halves_below(n) <= p
    }
}

/// The number is read as a whole one from 1900 to 2099, so that it more likely names a year.
pub open spec fn looks_like_year(literal: Literal) -> bool {
    match literal {
        Literal::Special => false,
        Literal::Finite { negative, digits, shift } => !negative && exists|n: int|
            1900 <= n <= 2099 && #[trigger] reads_as(digits_value(digits), shift, n),
    }
}

pub open spec fn without_commas(text: Seq<char>) -> Seq<char>
    decreases text.len(),
{
    if text.len() == 0 {
        Seq::empty()
    } else if text.last() == ',' {
        without_commas(text.drop_last())
    } else {
        without_commas(text.drop_last()).push(text.last())
    }
}

/// The price that a token stands for: a number that may have commas in it, with `k` or `m` behind
/// it for thousands or millions.
pub open spec fn suffixed_number(token: Seq<char>) -> Option<PriceRecord> {
    if token.len() == 0 {
        None
    } else {
        let price = if token.last() == 'k' {
            PriceRecord { number: without_commas(token.drop_last()), power: 3 }
        } else if token.last() == 'm' {
            PriceRecord { number: without_commas(token.drop_last()), power: 6 }
        } else {
            PriceRecord { number: without_commas(token), power: 0 }
        };
        if literal_of(price.number) is Some {
            Some(price)
        } else {
            None
        }
    }
}

pub open spec fn is_price_char(c: char) -> bool {
    is_ascii_digit(c) || c == '.' || c == ','
}

/// How many digits, points and commas the text starts with.
pub open spec fn price_run(text: Seq<char>) -> nat
    decreases text.len(),
{
    if text.len() == 0 || !is_price_char(text[0]) {
        0
    } else {
        1 + price_run(text.drop_first())
    }
}

/// The price that the text starts with.
pub open spec fn leading_price(text: Seq<char>) -> Option<PriceRecord> {
    let run = price_run(text) as int;
    if run < text.len() && (text[run] == 'k' || text[run] == 'm') {
        suffixed_number(text.take(run + 1))
    } else {
        suffixed_number(text.take(run))
    }
}

/// The prices behind the dollar signs among the first `n` characters.
pub open spec fn dollar_prices(lower: Seq<char>, n: nat) -> Seq<PriceRecord>
    decreases n,
{
    if n == 0 {
        Seq::empty()
    } else {
        let before = dollar_prices(lower, (n - 1) as nat);
        match leading_price(lower.skip(n as int)) {
            Some(price) => if lower[n - 1] == '$' {
                before.push(price)
            } else {
                before
            },
            None => before,
        }
    }
}

/// A character that may stand at the edge of a number.
pub open spec fn is_number_edge(c: char) -> bool {
    is_ascii_alphanumeric(c) || c == '.' || c == ','
}

pub open spec fn trimmed_end(text: Seq<char>) -> Seq<char>
    decreases text.len(),
{
    if text.len() == 0 || is_number_edge(text.last()) {
        text
    } else {
        trimmed_end(text.drop_last())
    }
}

pub open spec fn trimmed_start(text: Seq<char>) -> Seq<char>
    decreases text.len(),
{
    if text.len() == 0 || is_number_edge(text[0]) {
        text
    } else {
        trimmed_start(text.drop_first())
    }
}

/// The price that a word stands for, without what surrounds it; a year is none. A number with a
/// suffix is no year.
pub open spec fn word_price(word: Seq<char>) -> Option<PriceRecord> {
    match suffixed_number(trimmed_end(trimmed_start(word))) {
        Some(price) => if price.power == 0 && looks_like_year(literal_of(price.number)->0) {
            None
        } else {
            Some(price)
        },
        None => None,
    }
}

/// The prices among the first `n` words.
pub open spec fn word_prices(words: Seq<Seq<char>>, n: nat) -> Seq<PriceRecord>
    decreases n,
{
    if n == 0 {
        Seq::empty()
    } else {
        let before = word_prices(words, (n - 1) as nat);
        match word_price(words[n - 1]) {
            Some(price) => before.push(price),
            None => before,
        }
    }
}

/// The prices in a lower-case text: those behind dollar signs, or where there is none of these, the
/// words that are prices.
pub open spec fn prices_of(lower: Seq<char>) -> Seq<PriceRecord> {
    let dollars = dollar_prices(lower, lower.len());
    if dollars.len() > 0 {
        dollars
    } else {
        word_prices(words_of(lower), words_of(lower).len())
    }
}

/// The prices in a text.
pub open spec fn prices_in(question: Seq<char>) -> Seq<PriceRecord> {
    prices_of(text::lowercase(question))
}

/// The first of the prices.
pub open spec fn first_price(prices: Seq<PriceRecord>) -> Option<PriceRecord> {
    if prices.len() > 0 {
        Some(prices[0])
    } else {
        None
    }
}

pub open spec fn price_views(prices: Seq<Price>) -> Seq<PriceRecord> {
    prices.map_values(|p: Price| p@)
}

/// What the exponents that are reckoned with are cut off at.
pub const EXPONENT_LIMIT: i128 = 1_000_000_000_000_000_000_000_000_000_000;

proof fn lemma_digits_len(text: Seq<char>)
    ensures
        digits_len(text) <= text.len(),
        forall|i: int| 0 <= i < digits_len(text) ==> is_ascii_digit(#[trigger] text[i]),
    decreases text.len(),
{
    if text.len() > 0 && is_ascii_digit(text[0]) {
        lemma_digits_len(text.drop_first());
        assert forall|i: int| 0 <= i < digits_len(text) implies is_ascii_digit(
            #[trigger] text[i],
        ) by {
            if i > 0 {
                assert(text.drop_first()[i - 1] == text[i]);
            }
        }
    }
}

/// Where the digits that stand from `from` on end.
fn digits_end(text: &Vec<char>, from: usize) -> (r: usize)
    requires
        from <= text@.len(),
    ensures
        from <= r <= text@.len(),
        r - from == digits_len(text@.skip(from as int)),
{
    let mut end: usize = from;
    while end < text.len() && text::is_digit(text[end])
        invariant
            from <= end <= text@.len(),
            digits_len(text@.skip(from as int)) == (end - from) + digits_len(
                text@.skip(end as int),
            ),
        decreases text@.len() - end,
    {
        proof {
            assert(text@.skip(end as int).drop_first() =~= text@.skip(end + 1));
            assert(text@.skip(end as int)[0] == text@[end as int]);
        }
        end = end + 1;
    }
    proof {
        assert(end < text@.len() ==> text@.skip(end as int)[0] == text@[end as int]);
    }
    end
}

/// The number that the digits from `from` on stand for, cut off at `limit`.
fn capped_value(text: &Vec<char>, from: usize, to: usize, limit: i128) -> (r: i128)
    requires
        from <= to <= text@.len(),
        forall|i: int| from <= i < to ==> is_ascii_digit(#[trigger] text@[i]),
        0 < limit <= EXPONENT_LIMIT,
    ensures
        r == crate::rounding::lesser(
            digits_value(text@.subrange(from as int, to as int)),
            limit as int,
        ),
        0 <= r,
{
    let mut value: i128 = 0;
    let mut i: usize = from;
    while i < to
        invariant
            from <= i <= to <= text@.len(),
            forall|k: int| from <= k < to ==> is_ascii_digit(#[trigger] text@[k]),
            0 < limit <= EXPONENT_LIMIT,
            0 <= value,
            value == crate::rounding::lesser(
                digits_value(text@.subrange(from as int, i as int)),
                limit as int,
            ),
            digits_value(text@.subrange(from as int, i as int)) >= 0,
        decreases to - i,
    {
        proof {
            assert(is_ascii_digit(text@[i as int]));
            assert(text@.subrange(from as int, i + 1).drop_last() =~= text@.subrange(
                from as int,
                i as int,
            ));
            assert(text@.subrange(from as int, i + 1).last() == text@[i as int]);
        }
        let digit: i128 = (text[i] as u32 - '0' as u32) as i128;
        let next: i128 = value * 10 + digit;
        value = if next > limit {
            limit
        } else {
            next
        };
        i = i + 1;
    }
    value
}

/// The digits before a place and those from it on make up the number.
proof fn lemma_value_split(digits: Seq<char>, k: int)
    requires
        0 <= k <= digits.len(),
    ensures
        digits_value(digits) == digits_value(digits.take(k)) * pow10((digits.len() - k) as nat)
            + digits_value(digits.skip(k)),
    decreases digits.len() - k,
{
    let v = digits_value(digits.take(k));
    if k < digits.len() {
        let shorter = digits.drop_last();
        lemma_value_split(shorter, k);
        assert(shorter.take(k) =~= digits.take(k));
        assert(shorter.skip(k) =~= digits.skip(k).drop_last());
        assert(digits.skip(k).last() == digits.last());
        let p = pow10((shorter.len() - k) as nat);
        assert(pow10((digits.len() - k) as nat) == 10 * p);
        assert(10 * (v * p) == v * (10 * p)) by (nonlinear_arith);
    } else {
        assert(digits.take(k) =~= digits);
        assert(digits.skip(k) =~= Seq::empty());
        assert(v * 1 == v);
    }
}

/// A row of digits stands for less than one with a digit more does.
proof fn lemma_value_bound(digits: Seq<char>)
    requires
        forall|i: int| 0 <= i < digits.len() ==> is_ascii_digit(#[trigger] digits[i]),
    ensures
        0 <= digits_value(digits) < pow10(digits.len()),
    decreases digits.len(),
{
    if digits.len() > 0 {
        assert forall|i: int| 0 <= i < digits.len() - 1 implies is_ascii_digit(
            #[trigger] digits.drop_last()[i],
        ) by {
            assert(digits.drop_last()[i] == digits[i]);
        }
        lemma_value_bound(digits.drop_last());
        assert(is_ascii_digit(digits[digits.len() - 1]));
    }
}

/// A row of digits that starts with none of zero stands for as much as its length says.
proof fn lemma_leading_digit(digits: Seq<char>)
    requires
        digits.len() > 0,
        digits[0] != '0',
        forall|i: int| 0 <= i < digits.len() ==> is_ascii_digit(#[trigger] digits[i]),
    ensures
        pow10((digits.len() - 1) as nat) <= digits_value(digits),
{
    let rest = digits.skip(1);
    let first = digits.take(1);
    lemma_value_split(digits, 1);
    assert forall|i: int| 0 <= i < rest.len() implies is_ascii_digit(#[trigger] rest[i]) by {
        assert(rest[i] == digits[i + 1]);
    }
    lemma_value_bound(rest);
    assert(first.drop_last() =~= Seq::empty());
    assert(first.last() == digits[0]);
    assert(is_ascii_digit(digits[0]));
    assert(digits_value(first.drop_last()) == 0);
    let v = digits_value(first);
    let p = pow10((digits.len() - 1) as nat);
    lemma_pow10_positive((digits.len() - 1) as nat);
    assert(v * p >= p) by (nonlinear_arith)
        requires
            v >= 1,
            p > 0,
    ;
}

proof fn lemma_zeros_value(digits: Seq<char>)
    requires
        forall|i: int| 0 <= i < digits.len() ==> #[trigger] digits[i] == '0',
    ensures
        digits_value(digits) == 0,
    decreases digits.len(),
{
    if digits.len() > 0 {
        assert forall|i: int| 0 <= i < digits.len() - 1 implies #[trigger] digits.drop_last()[i]
            == '0' by {
            assert(digits.drop_last()[i] == digits[i]);
        }
        lemma_zeros_value(digits.drop_last());
        assert(digits.last() == '0');
    }
}

proof fn lemma_pow10_at_least(n: nat, k: nat)
    requires
        k <= n,
    ensures
        pow10(n) >= pow10(k) > 0,
    decreases n,
{
    lemma_pow10_positive(k);
    if k < n {
        lemma_pow10_at_least((n - 1) as nat, k);
    }
}

/// A number is read as a year only if it has four digits before the point.
proof fn lemma_years_have_four_digits(d: int, len: nat, shift: int, n: int)
    requires
        len > 0,
        pow10((len - 1) as nat) <= d < pow10(len),
        len + shift != 4,
        1900 <= n <= 2099,
    ensures
        !reads_as(d, shift, n),
{
    assert(pow10(3) == 1000 && pow10(4) == 10000) by {
        reveal_with_fuel(pow10, 5);
    }
    if shift >= 0 {
        let q = pow10(shift as nat);
        lemma_pow10_positive(shift as nat);
        if len + shift <= 3 {
            lemma_pow10_sum(len, shift as nat);
            lemma_pow10_at_least(3, (len + shift) as nat);
            assert(d * q < pow10(len) * q) by (nonlinear_arith)
                requires
                    d < pow10(len),
                    q > 0,
            ;
        } else {
            lemma_pow10_sum((len - 1) as nat, shift as nat);
            lemma_pow10_at_least((len - 1 + shift) as nat, 4);
            assert(d * q >= pow10((len - 1) as nat) * q) by (nonlinear_arith)
                requires
                    d >= pow10((len - 1) as nat),
                    q > 0,
            ;
        }
    } else {
        let m = (-shift) as nat;
        let p = pow10(m);
        lemma_pow10_positive(m);
        if len + shift <= 3 {
            lemma_pow10_sum(3, m);
            lemma_pow10_at_least(3 + m, len);
            let h = halves_below(n);
            assert((n * p - d) * h > p) by (nonlinear_arith)
                requires
                    d < 1000 * p,
                    n >= 1900,
                    p > 0,
                    h >= 1,
            {
                assert(n * p >= 1900 * p);
                assert(n * p - d > 900 * p);
                assert((n * p - d) * h >= n * p - d);
            }
        } else {
            lemma_pow10_sum(4, m);
            lemma_pow10_at_least((len - 1) as nat, 4 + m);
            let h = halves_above(n);
            assert((d - n * p) * h > p) by (nonlinear_arith)
                requires
                    d >= 10000 * p,
                    n <= 2099,
                    p > 0,
                    h >= 1,
            {
                assert(n * p <= 2099 * p);
                assert(d - n * p > 7900 * p);
                assert((d - n * p) * h >= d - n * p);
            }
        }
    }
}

/// A number with a part behind the point is read as the whole number before it or as the one after
/// it, if as any.
proof fn lemma_year(whole: int, part: int, shift: int)
    requires
        shift < 0,
        0 <= part < pow10((-shift) as nat),
    ensures
        ({
            let p = pow10((-shift) as nat);
            (exists|n: int| 1900 <= n <= 2099 && #[trigger] reads_as(whole * p + part, shift, n))
                <==> {
                ||| 1900 <= whole <= 2099 && part * halves_above(whole) <= p
                ||| 1900 <= whole + 1 <= 2099 && (p - part) * halves_below(whole + 1) <= p
            }
        }),
{
    let p = pow10((-shift) as nat);
    let d = whole * p + part;
    assert forall|n: int| #[trigger] reads_as(d, shift, n) implies n == whole || n == whole + 1 by {
        let above = halves_above(n);
        let below = halves_below(n);
        if n < whole {
            assert((d - n * p) * above > p) by (nonlinear_arith)
                requires
                    n <= whole - 1,
                    d == whole * p + part,
                    part >= 0,
                    p > 0,
                    above >= 2,
            {
                assert(d - n * p >= p);
                assert((d - n * p) * above >= 2 * (d - n * p));
            }
        }
        if n > whole + 1 {
            assert((n * p - d) * below > p) by (nonlinear_arith)
                requires
                    n >= whole + 2,
                    d == whole * p + part,
                    part < p,
                    p > 0,
                    below >= 1,
            {
                assert(n * p >= (whole + 2) * p);
                assert(n * p - d > p);
                assert((n * p - d) * below >= n * p - d);
            }
        }
    }
    let above = halves_above(whole);
    let below = halves_below(whole);
    let next_above = halves_above(whole + 1);
    assert(d - whole * p == part);
    assert((whole + 1) * p == whole * p + p) by (nonlinear_arith);
    assert((-part) * below <= 0 && (part - p) * next_above <= 0) by (nonlinear_arith)
        requires
            0 <= part < p,
            below > 0,
            next_above > 0,
    ;
    assert(reads_as(d, shift, whole) == (part * above <= p));
    assert(reads_as(d, shift, whole + 1) == ((p - part) * halves_below(whole + 1) <= p));
}

/// A number literal as it is read: its exponent is exact, or too large to matter.
struct LiteralParts {
    special: bool,
    negative: bool,
    digits: Vec<char>,
    shift: i128,
}

spec fn shift_agrees(have: int, want: int) -> bool {
    ||| have == want
    ||| have > EXPONENT_LIMIT / 2 && want > EXPONENT_LIMIT / 2
    ||| have < -(EXPONENT_LIMIT / 2) && want < -(EXPONENT_LIMIT / 2)
}

spec fn describes(parts: LiteralParts, literal: Literal) -> bool {
    match literal {
        Literal::Special => parts.special,
        Literal::Finite { negative, digits, shift } => {
            &&& !parts.special
            &&& parts.negative == negative
            &&& parts.digits@ == digits
            &&& forall|i: int| 0 <= i < digits.len() ==> is_ascii_digit(#[trigger] digits[i])
            &&& shift_agrees(parts.shift as int, shift)
            &&& -2 * EXPONENT_LIMIT <= parts.shift <= EXPONENT_LIMIT
        },
    }
}

/// The exponent that stands from `from` on.
fn read_exponent(text: &Vec<char>, from: usize) -> (r: Option<i128>)
    requires
        from <= text@.len(),
    ensures
        r is Some <==> exponent_of(text@.skip(from as int)) is Some,
        r matches Some(e) ==> {
            let want = exponent_of(text@.skip(from as int))->0;
            &&& e == want || (e == EXPONENT_LIMIT && want > EXPONENT_LIMIT) || (e
                == -EXPONENT_LIMIT && want < -EXPONENT_LIMIT)
            &&& -EXPONENT_LIMIT <= e <= EXPONENT_LIMIT
        },
{
    let ghost rest = text@.skip(from as int);
    if from == text.len() {
        return Some(0);
    }
    proof {
        assert(rest[0] == text@[from as int]);
        assert(rest.drop_first() =~= text@.skip(from + 1));
    }
    if text::lower(text[from]) != 'e' {
        return None;
    }
    let mut start: usize = from + 1;
    let mut is_negative = false;
    if start < text.len() && (text[start] == '+' || text[start] == '-') {
        is_negative = text[start] == '-';
        proof {
            assert(rest.drop_first()[0] == text@[start as int]);
            assert(rest.drop_first().drop_first() =~= text@.skip(start + 1));
        }
        start = start + 1;
    } else {
        proof {
            assert(start < text@.len() ==> rest.drop_first()[0] == text@[start as int]);
        }
    }
    let ghost digits = unsigned(rest.drop_first());
    proof {
        assert(digits == text@.skip(start as int));
        lemma_digits_len(digits);
    }
    let end = digits_end(text, start);
    if start == text.len() || end != text.len() {
        return None;
    }
    proof {
        assert forall|i: int| start <= i < end implies is_ascii_digit(#[trigger] text@[i]) by {
            assert(digits[i - start] == text@[i]);
        }
        assert(text@.subrange(start as int, end as int) =~= digits);
    }
    let value = capped_value(text, start, end, EXPONENT_LIMIT);
    if is_negative {
        Some(-value)
    } else {
        Some(value)
    }
}

/// The digits of a literal: where they end, and how many stand behind the point.
struct Mantissa {
    digits: Vec<char>,
    end: usize,
    fraction: usize,
}

spec fn fraction_digits(text: Seq<char>) -> Seq<char> {
    let after = text.skip(digits_len(text) as int);
    if after.len() > 0 && after[0] == '.' {
        after.drop_first().take(digits_len(after.drop_first()) as int)
    } else {
        Seq::empty()
    }
}

spec fn after_mantissa(text: Seq<char>) -> Seq<char> {
    let after = text.skip(digits_len(text) as int);
    if after.len() > 0 && after[0] == '.' {
        after.drop_first().skip(digits_len(after.drop_first()) as int)
    } else {
        after
    }
}

fn read_mantissa(text: &Vec<char>) -> (r: Mantissa)
    ensures
        r.end <= text@.len(),
        r.digits@ == text@.take(digits_len(text@) as int) + fraction_digits(text@),
        r.fraction == fraction_digits(text@).len(),
        text@.skip(r.end as int) == after_mantissa(text@),
        forall|i: int| 0 <= i < r.digits@.len() ==> is_ascii_digit(#[trigger] r.digits@[i]),
{
    proof {
        assert(text@.skip(0) =~= text@);
        lemma_digits_len(text@);
    }
    let whole = digits_end(text, 0);
    let mut digits = text::part(text, 0, whole);
    let ghost after = text@.skip(whole as int);
    proof {
        assert(digits@ =~= text@.take(whole as int));
        assert(whole < text@.len() ==> after[0] == text@[whole as int]);
        assert(digits@ + Seq::empty() =~= digits@);
    }
    if whole < text.len() && text[whole] == '.' {
        proof {
            assert(after.drop_first() =~= text@.skip(whole + 1));
            lemma_digits_len(after.drop_first());
        }
        let end = digits_end(text, whole + 1);
        let mut tail = text::part(text, whole + 1, end);
        let fraction: usize = end - whole - 1;
        proof {
            assert(tail@ =~= after.drop_first().take(fraction as int));
            assert(after.drop_first().skip(fraction as int) =~= text@.skip(end as int));
            assert forall|i: int| 0 <= i < tail@.len() implies is_ascii_digit(
                #[trigger] tail@[i],
            ) by {
                assert(tail@[i] == after.drop_first()[i]);
            }
        }
        digits.append(&mut tail);
        Mantissa { digits, end, fraction }
    } else {
        Mantissa { digits, end: whole, fraction: 0 }
    }
}

fn read_unsigned_literal(text: &Vec<char>, is_negative: bool) -> (r: Option<LiteralParts>)
    ensures
        r is Some <==> unsigned_literal(text@, is_negative) is Some,
        r matches Some(p) ==> describes(p, unsigned_literal(text@, is_negative)->0),
{
    if text::chars_eq_ignore_case(text, "inf") || text::chars_eq_ignore_case(text, "infinity")
        || text::chars_eq_ignore_case(text, "nan") {
        return Some(
            LiteralParts { special: true, negative: is_negative, digits: Vec::new(), shift: 0 },
        );
    }
    let mantissa = read_mantissa(text);
    match read_exponent(text, mantissa.end) {
        None => None,
        Some(e) => {
            proof {
                lemma_digits_len(text@);
            }
            if mantissa.digits.len() == 0 {
                None
            } else {
                Some(
                    LiteralParts {
                        special: false,
                        negative: is_negative,
                        digits: mantissa.digits,
                        shift: e - mantissa.fraction as i128,
                    },
                )
            }
        },
    }
}

/// A text read as a number literal.
fn read_literal(text: &Vec<char>) -> (r: Option<LiteralParts>)
    ensures
        r is Some <==> literal_of(text@) is Some,
        r matches Some(p) ==> describes(p, literal_of(text@)->0),
{
    if text.len() > 0 && (text[0] == '+' || text[0] == '-') {
        let rest = text::part(text, 1, text.len());
        proof {
            assert(rest@ =~= text@.drop_first());
        }
        read_unsigned_literal(&rest, text[0] == '-')
    } else {
        read_unsigned_literal(text, false)
    }
}

/// Whether the part that the digits from `from` on stand for, behind the point, is at most one of so
/// many parts of one.
fn is_at_most(digits: &Vec<char>, from: usize, parts: i128) -> (r: bool)
    requires
        from <= digits@.len(),
        0 < parts <= FINE_HALVES,
        forall|i: int| 0 <= i < digits@.len() ==> is_ascii_digit(#[trigger] digits@[i]),
    ensures
        r == (digits_value(digits@.skip(from as int)) * parts <= pow10(
            (digits@.len() - from) as nat,
        )),
{
    let mut room: i128 = 1;
    let mut i: usize = from;
    let ghost mut exact: int = 1;
    proof {
        assert(digits@.subrange(from as int, from as int) =~= Seq::empty());
        assert(0 * parts == 0);
    }
    while i < digits.len()
        invariant
            from <= i <= digits@.len(),
            0 < parts <= FINE_HALVES,
            forall|k: int| 0 <= k < digits@.len() ==> is_ascii_digit(#[trigger] digits@[k]),
            exact == pow10((i - from) as nat) - digits_value(
                digits@.subrange(from as int, i as int),
            ) * parts,
            -1 <= room <= parts,
            0 <= room < parts ==> room == exact,
            room == parts ==> exact >= parts,
            room == -1 ==> exact < 0,
        decreases digits@.len() - i,
    {
        let ghost before = digits@.subrange(from as int, i as int);
        let ghost after = digits@.subrange(from as int, i + 1);
        proof {
            assert(is_ascii_digit(digits@[i as int]));
            assert(after.drop_last() =~= before);
            assert(after.last() == digits@[i as int]);
            assert(pow10((i + 1 - from) as nat) == 10 * pow10((i - from) as nat));
        }
        let digit: i128 = (digits[i] as u32 - '0' as u32) as i128;
        proof {
            let v = digits_value(before);
            assert((10 * v + digit) * parts == 10 * (v * parts) + digit * parts)
                by (nonlinear_arith);
            assert(0 <= digit * parts <= 9 * parts) by (nonlinear_arith)
                requires
                    0 <= digit <= 9,
                    parts > 0,
            ;
            exact = 10 * exact - digit * parts;
        }
        if room >= 0 && room < parts {
            let next: i128 = 10 * room - digit * parts;
            room = if next < 0 {
                -1
            } else if next > parts {
                parts
            } else {
                next
            };
        }
        i = i + 1;
    }
    proof {
        assert(digits@.subrange(from as int, i as int) =~= digits@.skip(from as int));
    }
    room >= 0
}

/// Whether what the digits from `from` on, behind the point, lack of one is at most one of so many
/// parts of it.
fn lacks_at_most(digits: &Vec<char>, from: usize, parts: i128) -> (r: bool)
    requires
        from <= digits@.len(),
        1 < parts <= FINE_HALVES,
        forall|i: int| 0 <= i < digits@.len() ==> is_ascii_digit(#[trigger] digits@[i]),
    ensures
        r == ((pow10((digits@.len() - from) as nat) - digits_value(digits@.skip(from as int)))
            * parts <= pow10((digits@.len() - from) as nat)),
{
    let mut room: i128 = 1 - parts;
    let mut i: usize = from;
    let ghost mut exact: int = 1 - parts;
    proof {
        assert(digits@.subrange(from as int, from as int) =~= Seq::empty());
        assert((1 - 0) * parts == parts);
    }
    while i < digits.len()
        invariant
            from <= i <= digits@.len(),
            1 < parts <= FINE_HALVES,
            forall|k: int| 0 <= k < digits@.len() ==> is_ascii_digit(#[trigger] digits@[k]),
            exact == pow10((i - from) as nat) - (pow10((i - from) as nat) - digits_value(
                digits@.subrange(from as int, i as int),
            )) * parts,
            -parts <= room <= 0,
            -parts < room < 0 ==> room == exact,
            room == 0 ==> exact >= 0,
            room == -parts ==> exact <= -parts,
        decreases digits@.len() - i,
    {
        let ghost before = digits@.subrange(from as int, i as int);
        let ghost after = digits@.subrange(from as int, i + 1);
        proof {
            assert(is_ascii_digit(digits@[i as int]));
            assert(after.drop_last() =~= before);
            assert(after.last() == digits@[i as int]);
            assert(pow10((i + 1 - from) as nat) == 10 * pow10((i - from) as nat));
        }
        let digit: i128 = (digits[i] as u32 - '0' as u32) as i128;
        proof {
            let v = digits_value(before);
            let p = pow10((i - from) as nat);
            assert((10 * p - (10 * v + digit)) * parts == 10 * ((p - v) * parts) - digit * parts)
                by (nonlinear_arith);
            assert(0 <= digit * parts <= 9 * parts) by (nonlinear_arith)
                requires
                    0 <= digit <= 9,
                    parts > 0,
            ;
            exact = 10 * exact + digit * parts;
        }
        if room > -parts && room < 0 {
            let next: i128 = 10 * room + digit * parts;
            room = if next >= 0 {
                0
            } else if next < -parts {
                -parts
            } else {
                next
            };
        }
        i = i + 1;
    }
    proof {
        assert(digits@.subrange(from as int, i as int) =~= digits@.skip(from as int));
    }
    room == 0
}

fn count_halves_above(n: i128) -> (r: i128)
    ensures
        r == halves_above(n as int),
{
    if n < 2048 {
        FINE_HALVES
    } else {
        COARSE_HALVES
    }
}

fn count_halves_below(n: i128) -> (r: i128)
    ensures
        r == halves_below(n as int),
{
    if n <= 2048 {
        FINE_HALVES
    } else {
        COARSE_HALVES
    }
}

/// Whether a number of four digits and more behind the point is read as a year.
fn is_year_with_part(digits: &Vec<char>) -> (r: bool)
    requires
        digits@.len() > 4,
        forall|i: int| 0 <= i < digits@.len() ==> is_ascii_digit(#[trigger] digits@[i]),
    ensures
        r == exists|n: int|
            1900 <= n <= 2099 && #[trigger] reads_as(
                digits_value(digits@),
                4 - digits@.len(),
                n,
            ),
{
    let whole = capped_value(digits, 0, 4, 10000);
    proof {
        let front = digits@.take(4);
        let back = digits@.skip(4);
        assert(digits@.subrange(0, 4) =~= front);
        assert forall|i: int| 0 <= i < 4 implies is_ascii_digit(#[trigger] front[i]) by {
            assert(front[i] == digits@[i]);
        }
        assert forall|i: int| 0 <= i < back.len() implies is_ascii_digit(#[trigger] back[i]) by {
            assert(back[i] == digits@[i + 4]);
        }
        lemma_value_bound(front);
        lemma_value_bound(back);
        assert(pow10(4) == 10000) by {
            reveal_with_fuel(pow10, 5);
        }
        lemma_value_split(digits@, 4);
        lemma_year(whole as int, digits_value(back), 4 - digits@.len());
    }
    if whole >= 1900 && whole <= 2099 && is_at_most(digits, 4, count_halves_above(whole)) {
        return true;
    }
    whole + 1 >= 1900 && whole + 1 <= 2099 && lacks_at_most(
        digits,
        4,
        count_halves_below(whole + 1),
    )
}

/// Whether the number is read as a whole one from 1900 to 2099.
fn is_year(parts: &LiteralParts, literal: Ghost<Literal>) -> (r: bool)
    requires
        describes(*parts, literal@),
    ensures
        r == looks_like_year(literal@),
{
    if parts.special || parts.negative {
        return false;
    }
    let all = &parts.digits;
    let ghost want = literal@->shift;
    let ghost d = digits_value(all@);
    let mut zeros: usize = 0;
    while zeros < all.len() && all[zeros] == '0'
        invariant
            zeros <= all@.len(),
            forall|i: int| 0 <= i < zeros ==> #[trigger] all@[i] == '0',
        decreases all@.len() - zeros,
    {
        zeros = zeros + 1;
    }
    if zeros == all.len() {
        proof {
            lemma_zeros_value(all@);
            assert forall|n: int| 1900 <= n <= 2099 implies !reads_as(d, want, n) by {
                if want >= 0 {
                    assert(0 * pow10(want as nat) == 0);
                } else {
                    let p = pow10((-want) as nat);
                    let h = halves_below(n);
                    lemma_pow10_positive((-want) as nat);
                    assert((n * p - 0) * h > p) by (nonlinear_arith)
                        requires
                            n >= 2,
                            p > 0,
                            h >= 1,
                    {
                        assert(n * p >= 2 * p);
                        assert((n * p) * h >= n * p);
                    }
                }
            }
        }
        return false;
    }
    let digits = text::part(all, zeros, all.len());
    proof {
        let none = all@.take(zeros as int);
        assert(digits@ =~= all@.skip(zeros as int));
        lemma_value_split(all@, zeros as int);
        assert forall|i: int| 0 <= i < none.len() implies #[trigger] none[i] == '0' by {
            assert(none[i] == all@[i]);
        }
        lemma_zeros_value(none);
        assert(0 * pow10((all@.len() - zeros) as nat) == 0);
        assert(digits_value(digits@) == d);
        assert forall|i: int| 0 <= i < digits@.len() implies is_ascii_digit(
            #[trigger] digits@[i],
        ) by {
            assert(digits@[i] == all@[i + zeros]);
        }
        assert(digits@[0] == all@[zeros as int]);
        lemma_leading_digit(digits@);
        lemma_value_bound(digits@);
    }
    let len: usize = digits.len();
    if len as i128 + parts.shift != 4 {
        proof {
            assert forall|n: int| 1900 <= n <= 2099 implies !reads_as(d, want, n) by {
                lemma_years_have_four_digits(d, len as nat, want, n);
            }
        }
        return false;
    }
    proof {
        assert(want == 4 - len);
    }
    if len > 4 {
        return is_year_with_part(&digits);
    }
    let value = capped_value(&digits, 0, len, 10000);
    proof {
        assert(digits@.subrange(0, len as int) =~= digits@);
        lemma_pow10_at_least(4, len as nat);
        assert(pow10(0) == 1 && pow10(1) == 10 && pow10(2) == 100 && pow10(3) == 1000 && pow10(4)
            == 10000) by {
            reveal_with_fuel(pow10, 5);
        }
        assert(reads_as(d, want, d * pow10((4 - len) as nat)));
        let places = (4 - len) as nat;
        assert(places == 0 || places == 1 || places == 2 || places == 3);
        assert(d * 1 == d);
    }
    let number: i128 = if len == 4 {
        value
    } else if len == 3 {
        value * 10
    } else if len == 2 {
        value * 100
    } else {
        value * 1000
    };
    number >= 1900 && number <= 2099
}

fn remove_commas(text: &Vec<char>, to: usize) -> (r: Vec<char>)
    requires
        to <= text@.len(),
    ensures
        r@ == without_commas(text@.take(to as int)),
{
    let mut r: Vec<char> = Vec::new();
    let mut i: usize = 0;
    while i < to
        invariant
            i <= to <= text@.len(),
            r@ == without_commas(text@.take(i as int)),
        decreases to - i,
    {
        proof {
            assert(text@.take(i + 1).drop_last() =~= text@.take(i as int));
            assert(text@.take(i + 1).last() == text@[i as int]);
        }
        if text[i] != ',' {
            r.push(text[i]);
        }
        i = i + 1;
    }
    r
}

pub open spec fn price_record(price: Option<Price>) -> Option<PriceRecord> {
    match price {
        Some(p) => Some(p@),
        None => None,
    }
}

/// A number with commas and a suffix in it or not.
pub fn parse_suffixed_number(token: &Vec<char>) -> (r: Option<Price>)
    ensures
        price_record(r) == suffixed_number(token@),
        r is Some ==> r->0.power <= 6,
{
    if token.len() == 0 {
        return None;
    }
    let last = token[token.len() - 1];
    proof {
        assert(token@.take(token@.len() - 1) =~= token@.drop_last());
        assert(token@.take(token@.len() as int) =~= token@);
    }
    let (number, power) = if last == 'k' {
        (remove_commas(token, token.len() - 1), 3u32)
    } else if last == 'm' {
        (remove_commas(token, token.len() - 1), 6u32)
    } else {
        (remove_commas(token, token.len()), 0u32)
    };
    if read_literal(&number).is_some() {
        Some(Price { number, power })
    } else {
        None
    }
}

/// The price that stands from `from` on.
pub fn parse_price_token(text: &Vec<char>, from: usize) -> (r: Option<Price>)
    requires
        from <= text@.len(),
    ensures
        price_record(r) == leading_price(text@.skip(from as int)),
{
    let ghost rest = text@.skip(from as int);
    let mut end: usize = from;
    while end < text.len() && (text::is_digit(text[end]) || text[end] == '.' || text[end] == ',')
        invariant
            from <= end <= text@.len(),
            price_run(text@.skip(from as int)) == (end - from) + price_run(text@.skip(end as int)),
        decreases text@.len() - end,
    {
        proof {
            assert(text@.skip(end as int).drop_first() =~= text@.skip(end + 1));
            assert(text@.skip(end as int)[0] == text@[end as int]);
        }
        end = end + 1;
    }
    proof {
        assert(end < text@.len() ==> text@.skip(end as int)[0] == text@[end as int]);
        assert(price_run(rest) == end - from);
        assert(end < text@.len() ==> rest[end - from] == text@[end as int]);
    }
    if end < text.len() && (text[end] == 'k' || text[end] == 'm') {
        end = end + 1;
    }
    let token = text::part(text, from, end);
    proof {
        assert(token@ =~= rest.take(end - from));
    }
    parse_suffixed_number(&token)
}

fn trim(word: &Vec<char>) -> (r: Vec<char>)
    ensures
        r@ == trimmed_end(trimmed_start(word@)),
{
    let mut start: usize = 0;
    proof {
        assert(word@.skip(0) =~= word@);
    }
    while start < word.len() && !(text::is_alphanumeric(word[start]) || word[start] == '.'
        || word[start] == ',')
        invariant
            start <= word@.len(),
            trimmed_start(word@) == trimmed_start(word@.skip(start as int)),
        decreases word@.len() - start,
    {
        proof {
            assert(word@.skip(start as int).drop_first() =~= word@.skip(start + 1));
            assert(word@.skip(start as int)[0] == word@[start as int]);
        }
        start = start + 1;
    }
    proof {
        assert(start < word@.len() ==> word@.skip(start as int)[0] == word@[start as int]);
        assert(trimmed_start(word@) == word@.skip(start as int));
        assert(word@.subrange(start as int, word@.len() as int) =~= word@.skip(start as int));
    }
    let mut end: usize = word.len();
    while end > start && !(text::is_alphanumeric(word[end - 1]) || word[end - 1] == '.' || word[end
        - 1] == ',')
        invariant
            start <= end <= word@.len(),
            trimmed_end(word@.skip(start as int)) == trimmed_end(
                word@.subrange(start as int, end as int),
            ),
        decreases end,
    {
        proof {
            assert(word@.subrange(start as int, end as int).drop_last() =~= word@.subrange(
                start as int,
                end - 1,
            ));
            assert(word@.subrange(start as int, end as int).last() == word@[end - 1]);
        }
        end = end - 1;
    }
    proof {
        assert(end > start ==> word@.subrange(start as int, end as int).last() == word@[end - 1]);
    }
    text::part(word, start, end)
}

/// The price that a word stands for; a year is none.
fn price_of_word(word: &Vec<char>) -> (r: Option<Price>)
    ensures
        price_record(r) == word_price(word@),
{
    let token = trim(word);
    match parse_suffixed_number(&token) {
        None => None,
        Some(price) => match read_literal(&price.number) {
            Some(parts) => {
                if price.power == 0 && is_year(&parts, Ghost(literal_of(price.number@)->0)) {
                    None
                } else {
                    Some(price)
                }
            },
            None => None,
        },
    }
}

/// All prices in a lower-case text.
pub fn find_prices(lower: &Vec<char>) -> (r: Vec<Price>)
    ensures
        price_views(r@) == prices_of(lower@),
{
    let mut prices: Vec<Price> = Vec::new();
    let mut i: usize = 0;
    proof {
        assert(price_views(prices@) =~= Seq::empty());
    }
    while i < lower.len()
        invariant
            i <= lower@.len(),
            price_views(prices@) == dollar_prices(lower@, i as nat),
        decreases lower@.len() - i,
    {
        if lower[i] == '$' {
            if let Some(price) = parse_price_token(lower, i + 1) {
                let ghost before = prices@;
                prices.push(price);
                proof {
                    assert(price_views(prices@) =~= price_views(before).push(price@));
                }
            }
        }
        i = i + 1;
    }
    if prices.len() > 0 {
        return prices;
    }
    let words = text::split_words(lower);
    let mut k: usize = 0;
    while k < words.len()
        invariant
            k <= words@.len(),
            text::text_views(words@) == words_of(lower@),
            price_views(prices@) == word_prices(words_of(lower@), k as nat),
        decreases words@.len() - k,
    {
        proof {
            assert(words_of(lower@)[k as int] == words@[k as int]@);
        }
        if let Some(price) = price_of_word(&words[k]) {
            let ghost before = prices@;
            prices.push(price);
            proof {
                assert(price_views(prices@) =~= price_views(before).push(price@));
            }
        }
        k = k + 1;
    }
    prices
}

/// All prices in a text.
pub fn extract_all_prices(question: &str) -> (r: Vec<Price>)
    ensures
        price_views(r@) == prices_in(question@),
{
    find_prices(&text::lowercase_chars(question))
}

/// The first price in a lower-case text.
pub fn find_price(lower: &Vec<char>) -> (r: Option<Price>)
    ensures
        price_record(r) == first_price(prices_of(lower@)),
{
    let mut prices = find_prices(lower);
    if prices.len() > 0 {
        proof {
            assert(price_views(prices@)[0] == prices@[0]@);
        }
        Some(prices.swap_remove(0))
    } else {
        None
    }
}

/// The first price in a text, such as `$100,000`, `$100k`, `1.5m` or `100k`.
pub fn extract_price(question: &str) -> (r: Option<Price>)
    ensures
        price_record(r) == first_price(prices_in(question@)),
{
    find_price(&text::lowercase_chars(question))
}

/// Commas in a number do not count: all its other characters stay, in their order.
pub proof fn law_commas_do_not_count(text: Seq<char>)
    ensures
        without_commas(text) == text.filter(|c: char| c != ','),
    decreases text.len(),
{
    reveal(Seq::filter);
    if text.len() > 0 {
        law_commas_do_not_count(text.drop_last());
    }
}

/// A number with `k` behind it stands for thousands and one with `m` for millions; one without either
/// stands for itself.
pub proof fn law_suffixes_are_thousands_and_millions(number: Seq<char>)
    requires
        number.len() > 0,
        number.last() != 'k',
        number.last() != 'm',
        literal_of(without_commas(number)) is Some,
    ensures
        suffixed_number(number) == Some(PriceRecord { number: without_commas(number), power: 0 }),
        suffixed_number(number.push('k')) == Some(
            PriceRecord { number: without_commas(number), power: 3 },
        ),
        suffixed_number(number.push('m')) == Some(
            PriceRecord { number: without_commas(number), power: 6 },
        ),
{
    assert(number.push('k').drop_last() =~= number);
    assert(number.push('m').drop_last() =~= number);
}

} // verus!
