//! Electricity prices.
use crate::history;
use crate::text;
use vstd::arithmetic::power::*;
use vstd::prelude::*;

verus! {

/// A price from some time on.
#[derive(Debug)]
pub struct Tariff {
    pub effective_at_ms: i64,
    /// Millionths of the currency per kilowatt-hour.
    pub microcurrency_per_kwh: i64,
    pub currency: String,
}

/// A price from some time on, with its currency as characters.
pub struct TariffModel {
    pub effective_at_ms: i64,
    pub microcurrency_per_kwh: i64,
    pub currency: Seq<char>,
}

impl View for Tariff {
    type V = TariffModel;

    open spec fn view(&self) -> TariffModel {
        TariffModel {
            effective_at_ms: self.effective_at_ms,
            microcurrency_per_kwh: self.microcurrency_per_kwh,
            currency: self.currency@,
        }
    }
}

impl DeepView for Tariff {
    type V = TariffModel;

    open spec fn deep_view(&self) -> TariffModel {
        self@
    }
}

impl Clone for Tariff {
    fn clone(&self) -> (copy: Self)
        ensures
            copy@ == self@,
    {
        Tariff {
            effective_at_ms: self.effective_at_ms,
            microcurrency_per_kwh: self.microcurrency_per_kwh,
            currency: self.currency.clone(),
        }
    }
}

/// Why a text is no price.
#[derive(Debug, Clone, Copy, PartialEq, Eq, Structural)]
pub enum PriceError {
    /// It is not a decimal number of the accepted form.
    Malformed,
    /// Its whole part does not fit in 64 bits.
    TooLarge,
    /// It is beyond the highest price.
    OutOfRange,
}

impl PriceError {
    /// The words in which an error is reported.
    pub open spec fn words(self) -> Seq<char> {
        match self {
            PriceError::Malformed =>
                "price must be a nonnegative decimal with at most six fractional digits"@,
            PriceError::TooLarge => "number too large to fit in target type"@,
            PriceError::OutOfRange => "price exceeds supported range"@,
        }
    }

    /// The words in which an error is reported.
    pub fn message(&self) -> (words: &'static str)
        ensures
            words@ == self.words(),
    {
        match self {
            PriceError::Malformed =>
                "price must be a nonnegative decimal with at most six fractional digits",
            PriceError::TooLarge => "number too large to fit in target type",
            PriceError::OutOfRange => "price exceeds supported range",
        }
    }
}

/// The part of a price before its point.
pub open spec fn whole_part(price: Seq<char>) -> Seq<char> {
    price.take(text::first_of(price, '.') as int)
}

/// The part of a price behind its point, empty where there is none.
pub open spec fn fraction_part(price: Seq<char>) -> Seq<char> {
    let point = text::first_of(price, '.') as int;
    if point < price.len() {
        price.skip(point + 1)
    } else {
        Seq::empty()
    }
}

/// How many millionths one unit of the last of `digits` fractional digits is.
pub open spec fn last_place(digits: nat) -> nat
    decreases 6 - digits,
{
    if digits >= 6 {
        1
    } else {
        10 * last_place(digits + 1)
    }
}

/// The price that a text denotes, in millionths.
pub open spec fn price_of(price: Seq<char>) -> Result<nat, PriceError> {
    let whole = whole_part(price);
    let fraction = fraction_part(price);
    if whole.len() == 0 || !text::all_digits(whole) || fraction.len() > 6 || !text::all_digits(
        fraction,
    ) {
        Err(PriceError::Malformed)
    } else if text::number(whole) > i64::MAX {
        Err(PriceError::TooLarge)
    } else if text::number(whole) > 1_000_000 {
        Err(PriceError::OutOfRange)
    } else {
        Ok(text::number(whole) * 1_000_000 + text::number(fraction) * last_place(fraction.len()))
    }
}

/// How many millionths one unit of the last of `digits` fractional digits is.
fn place(digits: usize) -> (unit: i64)
    requires
        digits <= 6,
    ensures
        unit == last_place(digits as nat),
        1 <= unit <= 1_000_000,
{
    proof {
        reveal_with_fuel(last_place, 8);
    }
    match digits {
        0 => 1_000_000,
        1 => 100_000,
        2 => 10_000,
        3 => 1_000,
        4 => 100,
        5 => 10,
        _ => 1,
    }
}

/// A few digits denote a small number.
proof fn short_numbers_are_small(digits: Seq<char>)
    requires
        text::all_digits(digits),
        digits.len() <= 6,
    ensures
        text::number(digits) * last_place(digits.len()) < 1_000_000,
    decreases digits.len(),
{
    if digits.len() > 0 {
        let rest = digits.drop_last();
        short_numbers_are_small(rest);
        assert(text::is_digit(digits.last()));
        let unit = last_place(digits.len()) as int;
        let value = text::number(rest) as int;
        let digit = digits.last() as int - '0' as int;
        assert(last_place(rest.len()) == 10 * unit);
        reveal_with_fuel(last_place, 8);
        assert(value * (10 * unit) < 1_000_000);
        assert((value * 10 + digit) * unit < 1_000_000) by (nonlinear_arith)
            requires
                value * (10 * unit) < 1_000_000,
                0 <= digit <= 9,
                unit == 1 || unit == 10 || unit == 100 || unit == 1000 || unit == 10000 || unit
                    == 100000,
        ;
    } else {
        assert(text::number(digits) == 0);
        assert(0 * last_place(digits.len()) == 0) by (nonlinear_arith);
    }
}

/// Reads a price with at most six fractional digits.
pub fn parse_price(price: &str) -> (r: Result<i64, PriceError>)
    ensures
        match price_of(price@) {
            Ok(micro) => r matches Ok(value) && value == micro,
            Err(e) => r matches Err(f) && f == e,
        },
{
    let chars = text::chars_of(price);
    let point: usize = text::find_char(&chars, '.');
    let from: usize = if point < chars.len() {
        point + 1
    } else {
        point
    };
    let end: usize = chars.len();
    assert(chars@.subrange(0, point as int) =~= whole_part(price@));
    assert(chars@.subrange(from as int, end as int) =~= fraction_part(price@));
    if point == 0 || !text::are_digits(&chars, 0, point) || end - from > 6 || !text::are_digits(
        &chars,
        from,
        end,
    ) {
        return Err(PriceError::Malformed);
    }
    let whole: u64 = match text::parse_digits(&chars, 0, point, 0x7fff_ffff_ffff_ffff) {
        Some(n) => n,
        None => {
            return Err(PriceError::TooLarge);
        },
    };
    if whole > 1_000_000 {
        return Err(PriceError::OutOfRange);
    }
    proof {
        short_numbers_are_small(fraction_part(price@));
        let unit = last_place(fraction_part(price@).len()) as int;
        let value = text::number(fraction_part(price@)) as int;
        assert(unit >= 1) by {
            reveal_with_fuel(last_place, 8);
        }
        assert(value < 1_000_000) by (nonlinear_arith)
            requires
                value * unit < 1_000_000,
                unit >= 1,
                value >= 0,
        ;
    }
    let fraction: u64 = match text::parse_digits(&chars, from, end, 999_999) {
        Some(n) => n,
        None => {
            return Err(PriceError::TooLarge);
        },
    };
    let unit: i64 = place(end - from);
    let part: i64 = fraction as i64 * unit;
    Ok(whole as i64 * 1_000_000 + part)
}

/// Prices are exact to one millionth, and lie between nothing and the highest price.
pub proof fn prices_are_bounded(price: Seq<char>)
    requires
        price_of(price) is Ok,
    ensures
        0 <= price_of(price)->Ok_0 < 1_000_001 * 1_000_000,
{
    short_numbers_are_small(fraction_part(price));
    let unit = last_place(fraction_part(price).len()) as int;
    let value = text::number(fraction_part(price)) as int;
    assert(0 <= value * unit) by (nonlinear_arith)
        requires
            value >= 0,
            unit >= 0,
    ;
}

/// An amount that is written with its six places is read back as a price.
pub proof fn written_prices_read_back(n: nat)
    requires
        n <= 1_000_000_999_999,
    ensures
        price_of(history::amount(n as int)) == Ok::<nat, PriceError>(n),
{
    let price = history::amount(n as int);
    let whole = (n / 1_000_000) as nat;
    let rest = (n % 1_000_000) as nat;
    let head = text::decimal(whole);
    let tail = text::padded(rest as int, 6);
    reveal_strlit(".");
    reveal_with_fuel(text::decimal, 7);
    reveal_with_fuel(last_place, 8);
    text::decimal_reads_back(whole);
    text::padded_reads_back(rest, 6);
    assert(text::decimal(rest).len() <= 6);
    assert(text::signed(whole as int) =~= head);
    assert(price =~= head + seq!['.'] + tail);
    assert forall|i: int| 0 <= i < head.len() implies #[trigger] price[i] != '.' by {
        assert(text::is_digit(head[i]));
    }
    text::first_of_is(price, '.', head.len() as int);
    assert(whole_part(price) =~= head);
    assert(fraction_part(price) =~= tail);
    assert(tail.len() == 6 && last_place(6) == 1);
    assert(whole <= 1_000_000);
    assert(text::number(tail) * last_place(tail.len()) == rest);
    assert(whole * 1_000_000 + rest == n);
}

/// A character behind another one does not change where that one is first.
proof fn first_stays_first(price: Seq<char>, c: char, next: char)
    requires
        text::first_of(price, c) < price.len(),
    ensures
        text::first_of(price.push(next), c) == text::first_of(price, c),
    decreases price.len(),
{
    if price[0] != c {
        first_stays_first(price.drop_first(), c, next);
        assert(price.push(next).drop_first() =~= price.drop_first().push(next));
    }
}

/// A zero at the end of the fraction may be dropped: it does not change the price.
pub proof fn trailing_zeros_say_nothing(price: Seq<char>)
    requires
        text::first_of(price, '.') < price.len(),
        fraction_part(price).len() < 6,
    ensures
        price_of(price.push('0')) == price_of(price),
{
    let longer = price.push('0');
    let fraction = fraction_part(price);
    first_stays_first(price, '.', '0');
    assert(whole_part(longer) =~= whole_part(price));
    assert(fraction_part(longer) =~= fraction.push('0'));
    assert(fraction.push('0').drop_last() =~= fraction);
    if text::all_digits(fraction.push('0')) {
        assert forall|i: int| 0 <= i < fraction.len() implies text::is_digit(
            #[trigger] fraction[i],
        ) by {
            assert(text::is_digit(fraction.push('0')[i]));
        }
    }
    let unit = last_place((fraction.len() + 1) as nat) as int;
    let value = text::number(fraction) as int;
    assert(last_place(fraction.len()) == 10 * unit);
    assert(text::number(fraction.push('0')) == value * 10);
    assert((value * 10) * unit == value * (10 * unit)) by (nonlinear_arith);
}

/// A point without a fraction may be left out.
pub proof fn a_bare_point_says_nothing(price: Seq<char>)
    requires
        !price.contains('.'),
    ensures
        price_of(price.push('.')) == price_of(price),
{
    let longer = price.push('.');
    assert forall|i: int| 0 <= i < price.len() implies #[trigger] longer[i] != '.' by {
        assert(price.contains(price[i]));
    }
    text::first_of_is(longer, '.', price.len() as int);
    assert forall|i: int| 0 <= i < price.len() implies #[trigger] price[i] != '.' by {
        assert(price.contains(price[i]));
    }
    text::first_of_is(price, '.', price.len() as int);
    assert(whole_part(longer) =~= whole_part(price));
    assert(fraction_part(longer) =~= fraction_part(price));
}

/// Digits behind others denote what those denote in front of them, and their own number.
proof fn numbers_join(head: Seq<char>, tail: Seq<char>)
    requires
        text::all_digits(tail),
    ensures
        text::number(head + tail) == text::number(head) * pow(10, tail.len()) + text::number(tail),
    decreases tail.len(),
{
    let k = tail.len();
    if k == 0 {
        assert(head + tail =~= head);
        lemma_pow0(10);
        assert(text::number(head) * 1 == text::number(head));
    } else {
        let rest = tail.drop_last();
        let last = tail[k - 1];
        assert(text::is_digit(last));
        assert forall|i: int| 0 <= i < rest.len() implies text::is_digit(#[trigger] rest[i]) by {
            assert(rest[i] == tail[i]);
        }
        numbers_join(head, rest);
        assert(head + tail =~= (head + rest).push(last));
        assert(tail =~= rest.push(last));
        text::digits_denote_their_number(head + rest, last);
        text::digits_denote_their_number(rest, last);
        lemma_pow_adds(10, 1, (k - 1) as nat);
        lemma_pow1(10);
        let h = text::number(head) as int;
        let p = pow(10, (k - 1) as nat);
        assert(10 * (h * p) == h * (10 * p)) by (nonlinear_arith);
    }
}

/// The places of a fraction make up one unit.
proof fn places_make_one(digits: nat)
    requires
        digits <= 6,
    ensures
        last_place(digits) * pow(10, digits) == 1_000_000,
    decreases digits,
{
    if digits == 0 {
        lemma_pow0(10);
        reveal_with_fuel(last_place, 8);
    } else {
        let before = (digits - 1) as nat;
        places_make_one(before);
        lemma_pow_adds(10, 1, before);
        lemma_pow1(10);
        let unit = last_place(digits) as int;
        let p = pow(10, before);
        assert(last_place(before) == 10 * unit);
        assert((10 * unit) * p == unit * (10 * p)) by (nonlinear_arith);
    }
}

/// A price is a decimal number: in front of its point at least one digit, behind it at most six. Its
/// value in millionths is the number that all digits denote, over ten for each digit behind the point,
/// times a million. Above a million of the currency it is refused.
pub proof fn prices_are_decimal_numbers(whole: Seq<char>, fraction: Seq<char>)
    requires
        !whole.contains('.'),
    ensures
        ({
            let r = price_of(whole + seq!['.'] + fraction);
            let formed = whole.len() > 0 && text::all_digits(whole) && text::all_digits(fraction)
                && fraction.len() <= 6;
            &&& r == Err::<nat, PriceError>(PriceError::Malformed) <==> !formed
            &&& r == Err::<nat, PriceError>(PriceError::TooLarge) <==> formed && text::number(whole)
                > 0x7fff_ffff_ffff_ffff
            &&& r == Err::<nat, PriceError>(PriceError::OutOfRange) <==> formed && 1_000_000
                < text::number(whole) <= 0x7fff_ffff_ffff_ffff
            &&& r matches Ok(micro) ==> micro * pow(10, fraction.len()) == text::number(
                whole + fraction,
            ) * 1_000_000
        }),
{
    let price = whole + seq!['.'] + fraction;
    assert forall|i: int| 0 <= i < whole.len() implies #[trigger] price[i] != '.' by {
        assert(whole.contains(whole[i]));
    }
    text::first_of_is(price, '.', whole.len() as int);
    assert(whole_part(price) =~= whole);
    assert(fraction_part(price) =~= fraction);
    if price_of(price) is Ok {
        let k = fraction.len();
        let w = text::number(whole) as int;
        let f = text::number(fraction) as int;
        let p = pow(10, k);
        let unit = last_place(k) as int;
        numbers_join(whole, fraction);
        places_make_one(k);
        assert((w * 1_000_000 + f * unit) * p == (w * p + f) * 1_000_000) by (nonlinear_arith)
            requires
                unit * p == 1_000_000,
        ;
    }
}

} // verus!
