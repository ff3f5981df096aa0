//! Exact amounts with eight decimals.

use vstd::prelude::*;
use crate::number::{zero, Lawful, Number};
use crate::rounding::lemma_rounding_keeps_order;
use crate::text::{
    all_digits, chars_of, decimal, digit, digits_value, parse_count, text_of, text_of_count,
};

verus! {

/// Units to the whole: eight decimals.
pub const SCALE: i128 = 100_000_000;

/// An amount in hundred-millionths, or none that can be computed.
///
/// Sums and differences are exact; products, quotients and fractions are rounded
/// down to a unit. What does not fit is undefined.
#[derive(Debug, Clone, Copy, PartialEq, Eq, Structural)]
pub enum Amount {
    Units(i64),
    Undefined,
}

/// A count of units, where it fits.
pub open spec fn fitted(units: int) -> Amount {
    if i64::MIN <= units <= i64::MAX {
        Amount::Units(units as i64)
    } else {
        Amount::Undefined
    }
}

/// The quotient rounded down, whatever the signs.
pub open spec fn divided(n: int, d: int) -> int {
    if d > 0 {
        n / d
    } else {
        (-n) / (-d)
    }
}

fn fit(units: i128) -> (r: Amount)
    ensures
        r == fitted(units as int),
{
    if i64::MIN as i128 <= units && units <= i64::MAX as i128 {
        Amount::Units(units as i64)
    } else {
        Amount::Undefined
    }
}

fn divide_down(n: i128, d: i128) -> (r: i128)
    requires
        d != 0,
        -0x4000_0000_0000_0000_0000_0000_0000_0000 <= n <= 0x4000_0000_0000_0000_0000_0000_0000_0000,
        -0x2000_0000_0000_0000_0000_0000_0000_0000 <= d <= 0x2000_0000_0000_0000_0000_0000_0000_0000,
    ensures
        r == divided(n as int, d as int),
{
    let (num, den): (i128, i128) = if d > 0 {
        (n, d)
    } else {
        (-n, -d)
    };
    if num >= 0 {
        num / den
    } else {
        let up: i128 = (-num + (den - 1)) / den;
        proof {
            let a = -(num as int);
            let b = den as int;
            let q = (a + (b - 1)) / b;
            vstd::arithmetic::div_mod::lemma_fundamental_div_mod(a + b - 1, b);
            let rem = (a + b - 1) % b;
            assert(-a == b * (-q) + (b - 1 - rem)) by (nonlinear_arith)
                requires
                    a + b - 1 == b * q + rem,
            ;
            vstd::arithmetic::div_mod::lemma_fundamental_div_mod_converse(-a, b, -q, b - 1 - rem);
        }
        -up
    }
}

pub open spec fn sum_of(a: Amount, b: Amount) -> Amount {
    match (a, b) {
        (Amount::Units(x), Amount::Units(y)) => fitted(x + y),
        _ => Amount::Undefined,
    }
}

pub open spec fn difference_of(a: Amount, b: Amount) -> Amount {
    match (a, b) {
        (Amount::Units(x), Amount::Units(y)) => fitted(x - y),
        _ => Amount::Undefined,
    }
}

pub open spec fn product_of(a: Amount, b: Amount) -> Amount {
    match (a, b) {
        (Amount::Units(x), Amount::Units(y)) => fitted(divided(x * y, SCALE as int)),
        _ => Amount::Undefined,
    }
}

pub open spec fn quotient_of(a: Amount, b: Amount) -> Amount {
    match (a, b) {
        (Amount::Units(x), Amount::Units(y)) => if y == 0 {
            Amount::Undefined
        } else {
            fitted(divided(x * SCALE, y as int))
        },
        _ => Amount::Undefined,
    }
}

// ---------------------------------------------------------------------------
// Text
// ---------------------------------------------------------------------------

pub open spec fn power10(n: nat) -> nat
    decreases n,
{
    if n == 0 {
        1
    } else {
        10 * power10((n - 1) as nat)
    }
}

/// `n` zeros.
pub open spec fn zeros(n: nat) -> Seq<char> {
    Seq::new(n, |i: int| '0')
}

/// The last `width` decimal digits of a count.
pub open spec fn padded(n: nat, width: nat) -> Seq<char>
    decreases width,
{
    if width == 0 {
        Seq::empty()
    } else {
        padded(n / 10, (width - 1) as nat).push(digit(n % 10))
    }
}

/// The magnitude in units of `decimals` decimals, halves rounded up.
pub open spec fn scaled_magnitude(units: int, decimals: nat) -> nat
    recommends
        decimals <= 8,
{
    let m = (if units < 0 {
        -units
    } else {
        units
    }) as nat;
    let unit = power10((8 - decimals) as nat);
    ((2 * m + unit) / (2 * unit)) as nat
}

pub open spec fn sign_text(units: int) -> Seq<char> {
    if units < 0 {
        seq!['-']
    } else {
        Seq::empty()
    }
}

/// The magnitude with `decimals` decimals.
pub open spec fn magnitude_text(units: int, decimals: nat) -> Seq<char> {
    if decimals > 8 {
        magnitude_text_short(units, 8) + zeros((decimals - 8) as nat)
    } else {
        magnitude_text_short(units, decimals)
    }
}

pub open spec fn magnitude_text_short(units: int, decimals: nat) -> Seq<char> {
    let q = scaled_magnitude(units, decimals);
    let whole = decimal((q / power10(decimals)) as nat);
    if decimals == 0 {
        whole
    } else {
        whole.push('.') + padded(q, decimals)
    }
}

pub open spec fn fixed_text(a: Amount, decimals: nat) -> Seq<char> {
    match a {
        Amount::Units(u) => sign_text(u as int) + magnitude_text(u as int, decimals),
        Amount::Undefined => "NaN"@,
    }
}

pub open spec fn fixed_signed_text(a: Amount, decimals: nat) -> Seq<char> {
    match a {
        Amount::Units(u) => (if u < 0 {
            seq!['-']
        } else {
            seq!['+']
        }) + magnitude_text(u as int, decimals),
        Amount::Undefined => "NaN"@,
    }
}

/// A text without the zeros at its end, nor the point before them.
pub open spec fn without_trailing_zeros(text: Seq<char>) -> Seq<char>
    decreases text.len(),
{
    if text.len() > 0 && text.last() == '0' {
        without_trailing_zeros(text.drop_last())
    } else if text.len() > 0 && text.last() == '.' {
        text.drop_last()
    } else {
        text
    }
}

pub open spec fn shortest_text(a: Amount) -> Seq<char> {
    match a {
        Amount::Units(_) => without_trailing_zeros(fixed_text(a, 8)),
        Amount::Undefined => "NaN"@,
    }
}

/// The position of the first point, or the length.
pub open spec fn point_position(text: Seq<char>) -> int {
    if text.contains('.') {
        text.index_of_first('.')->0
    } else {
        text.len() as int
    }
}

/// The amount that an unsigned decimal numeral denotes: digits, then a point and
/// one to eight more digits, or nothing more.
pub open spec fn unsigned_reading(text: Seq<char>) -> Option<int> {
    let p = point_position(text);
    let whole = text.take(p);
    if !all_digits(whole) || digits_value(whole) > u64::MAX {
        None
    } else if p == text.len() {
        Some(digits_value(whole) * SCALE)
    } else {
        let rest = text.skip(p + 1);
        if all_digits(rest) && rest.len() <= 8 {
            Some(
                digits_value(whole) * SCALE + digits_value(rest) * power10((8 - rest.len()) as nat),
            )
        } else {
            None
        }
    }
}

/// The amount that a decimal numeral denotes, with a sign or without one.
pub open spec fn amount_reading(text: Seq<char>) -> Option<Amount> {
    let signed = text.len() > 0 && (text[0] == '-' || text[0] == '+');
    let reading = unsigned_reading(if signed {
        text.skip(1)
    } else {
        text
    });
    match reading {
        None => None,
        Some(units) => Some(
            fitted(
                if signed && text[0] == '-' {
                    -units
                } else {
                    units
                },
            ),
        ),
    }
}

fn power10_of(n: usize) -> (r: u64)
    requires
        n <= 8,
    ensures
        r == power10(n as nat),
        1 <= r <= 100_000_000,
{
    proof {
        reveal_with_fuel(power10, 9);
    }
    let mut r: u64 = 1;
    let mut i: usize = 0;
    while i < n
        invariant
            i <= n <= 8,
            r == power10(i as nat),
        decreases n - i,
    {
        proof {
            reveal_with_fuel(power10, 9);
        }
        r = r * 10;
        i = i + 1;
    }
    r
}

/// The last `width` digits of a count, as text.
fn padded_text(n: u64, width: usize) -> (r: String)
    ensures
        r@ == padded(n as nat, width as nat),
    decreases width,
{
    if width == 0 {
        let text = String::new();
        assert(text@ =~= Seq::<char>::empty());
        text
    } else {
        let mut text = padded_text(n / 10, width - 1);
        let d: u8 = (n % 10) as u8;
        text.push((48 + d) as char);
        text
    }
}

fn append_magnitude(text: &mut String, units: i64, decimals: usize)
    ensures
        final(text)@ == old(text)@ + magnitude_text(units as int, decimals as nat),
{
    let short: usize = if decimals > 8 {
        8
    } else {
        decimals
    };
    let m: u128 = if units < 0 {
        (-(units as i128)) as u128
    } else {
        units as u128
    };
    let unit: u64 = power10_of(8 - short);
    let base: u64 = power10_of(short);
    let wide: u128 = (2 * m + unit as u128) / (2 * unit as u128);
    proof {
        assert(wide <= 2 * m + unit) by (nonlinear_arith)
            requires
                wide == (2 * m + unit) / (2 * unit as int),
                unit >= 1,
        ;
        assert(wide <= m + 1) by (nonlinear_arith)
            requires
                wide == (2 * m + unit) / (2 * unit as int),
                unit >= 1,
                m >= 0,
        ;
    }
    let q: u64 = wide as u64;
    text.append(text_of_count(q / base).as_str());
    if short > 0 {
        text.push('.');
        text.append(padded_text(q, short).as_str());
    }
    assert(text@ =~= old(text)@ + magnitude_text_short(units as int, short as nat));
    let ghost before = text@;
    let mut i: usize = short;
    while i < decimals
        invariant
            short <= i,
            i <= decimals || i == short,
            short == 8 || decimals == short,
            text@ == before + zeros((i - short) as nat),
        decreases decimals - i,
    {
        text.push('0');
        i = i + 1;
        assert(text@ =~= before + zeros((i - short) as nat));
    }
    assert(text@ =~= old(text)@ + magnitude_text(units as int, decimals as nat));
}

fn read_unsigned(chars: &Vec<char>, from: usize) -> (r: Option<i128>)
    requires
        from <= chars@.len(),
    ensures
        match r {
            Some(units) => unsigned_reading(chars@.skip(from as int)) == Some(units as int) && 0
                <= units <= 0x2_0000_0000_0000_0000 * SCALE,
            None => unsigned_reading(chars@.skip(from as int)) is None,
        },
{
    let ghost text = chars@.skip(from as int);
    let mut p: usize = from;
    while p < chars.len() && chars[p] != '.'
        invariant
            from <= p <= chars@.len(),
            text == chars@.skip(from as int),
            forall|j: int| 0 <= j < p - from ==> text[j] != '.',
        decreases chars@.len() - p,
    {
        p = p + 1;
    }
    proof {
        if p < chars@.len() {
            assert(text[p - from] == '.');
            text.index_of_first_ensures('.');
        } else {
            assert(!text.contains('.'));
        }
        assert(point_position(text) == p - from);
        assert(text.take(p - from) =~= chars@.subrange(from as int, p as int));
    }
    if p == from || chars[from] == '+' {
        assert(text.take(p - from).len() == 0 || !crate::text::is_digit(text.take(p - from)[0]));
        return None;
    }
    let whole: u64 = match parse_count(text_of(chars, from, p).as_str()) {
        Some(n) => n,
        None => return None,
    };
    let units: i128 = whole as i128 * SCALE;
    if p == chars.len() {
        return Some(units);
    }
    let digits: usize = chars.len() - p - 1;
    assert(text.skip(p - from + 1) =~= chars@.subrange(p + 1, chars@.len() as int));
    if digits == 0 || digits > 8 || chars[p + 1] == '+' {
        assert(digits > 8 || text.skip(p - from + 1).len() == 0 || !crate::text::is_digit(
            text.skip(p - from + 1)[0],
        ));
        return None;
    }
    let rest: u64 = match parse_count(text_of(chars, p + 1, chars.len()).as_str()) {
        Some(n) => n,
        None => {
            proof {
                let tail = text.skip(p - from + 1);
                if all_digits(tail) {
                    lemma_digits_bound(tail);
                    lemma_power10_bound(tail.len());
                }
            }
            return None;
        },
    };
    let unit: u64 = power10_of(8 - digits);
    proof {
        let tail = text.skip(p - from + 1);
        lemma_digits_bound(tail);
        lemma_power10_bound(tail.len());
        assert(rest * unit <= 100_000_000 * 100_000_000) by (nonlinear_arith)
            requires
                0 <= rest <= 100_000_000,
                0 <= unit <= 100_000_000,
        ;
    }
    Some(units + rest as i128 * unit as i128)
}

proof fn lemma_digits_bound(text: Seq<char>)
    requires
        all_digits(text),
    ensures
        digits_value(text) < power10(text.len()),
    decreases text.len(),
{
    assert(crate::text::is_digit(text.last()));
    if text.len() == 1 {
        assert(text.drop_last() =~= Seq::empty());
        reveal_with_fuel(power10, 2);
        reveal_with_fuel(digits_value, 2);
    } else {
        let front = text.drop_last();
        assert forall|i: int| 0 <= i < front.len() implies crate::text::is_digit(
            #[trigger] front[i],
        ) by {
            assert(front[i] == text[i]);
        }
        lemma_digits_bound(front);
    }
}

proof fn lemma_power10_bound(n: nat)
    requires
        n <= 8,
    ensures
        power10(n) <= 100_000_000,
{
    reveal_with_fuel(power10, 9);
}

impl Number for Amount {
    open spec fn of_ratio(num: int, den: int) -> Amount {
        fitted(divided(num * SCALE, den))
    }

    open spec fn undefined() -> Amount {
        Amount::Undefined
    }

    open spec fn lowest() -> Amount {
        Amount::Units(i64::MIN)
    }

    open spec fn highest() -> Amount {
        Amount::Units(i64::MAX)
    }

    fn ratio(num: i64, den: u64) -> (r: Amount) {
        fit(divide_down(num as i128 * SCALE, den as i128))
    }

    fn count(n: u64) -> (r: Amount) {
        fit(divide_down(n as i128 * SCALE, 1))
    }

    fn nan() -> (r: Amount) {
        Amount::Undefined
    }

    fn min_value() -> (r: Amount) {
        Amount::Units(i64::MIN)
    }

    fn max_value() -> (r: Amount) {
        Amount::Units(i64::MAX)
    }

    open spec fn sum(self, other: Amount) -> Amount {
        sum_of(self, other)
    }

    open spec fn difference(self, other: Amount) -> Amount {
        difference_of(self, other)
    }

    open spec fn product(self, other: Amount) -> Amount {
        product_of(self, other)
    }

    open spec fn quotient(self, other: Amount) -> Amount {
        quotient_of(self, other)
    }

    open spec fn negation(self) -> Amount {
        match self {
            Amount::Units(u) => fitted(-u),
            Amount::Undefined => Amount::Undefined,
        }
    }

    open spec fn magnitude(self) -> Amount {
        match self {
            Amount::Units(u) => if u < 0 {
                fitted(-u)
            } else {
                self
            },
            Amount::Undefined => Amount::Undefined,
        }
    }

    open spec fn whole_below(self) -> Amount {
        match self {
            Amount::Units(u) => fitted((u as int / SCALE as int) * SCALE),
            Amount::Undefined => Amount::Undefined,
        }
    }

    open spec fn whole_above(self) -> Amount {
        match self {
            Amount::Units(u) => fitted(((u + (SCALE - 1)) / SCALE as int) * SCALE),
            Amount::Undefined => Amount::Undefined,
        }
    }

    open spec fn whole_nearest(self) -> Amount {
        match self {
            Amount::Units(u) => if u >= 0 {
                fitted(((u + SCALE / 2) / SCALE as int) * SCALE)
            } else {
                fitted(-(((-u + SCALE / 2) / SCALE as int) * SCALE))
            },
            Amount::Undefined => Amount::Undefined,
        }
    }

    fn plus(self, other: Amount) -> (r: Amount) {
        match (self, other) {
            (Amount::Units(x), Amount::Units(y)) => fit(x as i128 + y as i128),
            _ => Amount::Undefined,
        }
    }

    fn minus(self, other: Amount) -> (r: Amount) {
        match (self, other) {
            (Amount::Units(x), Amount::Units(y)) => fit(x as i128 - y as i128),
            _ => Amount::Undefined,
        }
    }

    fn times(self, other: Amount) -> (r: Amount) {
        match (self, other) {
            (Amount::Units(x), Amount::Units(y)) => {
                assert(-0x4000_0000_0000_0000_0000_0000_0000_0000 <= x * y
                    <= 0x4000_0000_0000_0000_0000_0000_0000_0000) by (nonlinear_arith)
                    requires
                        -0x8000_0000_0000_0000 <= x <= 0x7fff_ffff_ffff_ffff,
                        -0x8000_0000_0000_0000 <= y <= 0x7fff_ffff_ffff_ffff,
                ;
                fit(divide_down(x as i128 * y as i128, SCALE))
            },
            _ => Amount::Undefined,
        }
    }

    fn over(self, other: Amount) -> (r: Amount) {
        match (self, other) {
            (Amount::Units(x), Amount::Units(y)) => if y == 0 {
                Amount::Undefined
            } else {
                fit(divide_down(x as i128 * SCALE, y as i128))
            },
            _ => Amount::Undefined,
        }
    }

    fn neg(self) -> (r: Amount) {
        match self {
            Amount::Units(u) => fit(-(u as i128)),
            Amount::Undefined => Amount::Undefined,
        }
    }

    fn abs(self) -> (r: Amount) {
        match self {
            Amount::Units(u) => if u < 0 {
                fit(-(u as i128))
            } else {
                self
            },
            Amount::Undefined => Amount::Undefined,
        }
    }

    fn floor(self) -> (r: Amount) {
        match self {
            Amount::Units(u) => fit(divide_down(u as i128, SCALE) * SCALE),
            Amount::Undefined => Amount::Undefined,
        }
    }

    fn ceil(self) -> (r: Amount) {
        match self {
            Amount::Units(u) => fit(divide_down(u as i128 + (SCALE - 1), SCALE) * SCALE),
            Amount::Undefined => Amount::Undefined,
        }
    }

    fn round(self) -> (r: Amount) {
        match self {
            Amount::Units(u) => if u >= 0 {
                fit(divide_down(u as i128 + 50_000_000, SCALE) * SCALE)
            } else {
                fit(-(divide_down(-(u as i128) + 50_000_000, SCALE) * SCALE))
            },
            Amount::Undefined => Amount::Undefined,
        }
    }

    open spec fn is_undefined(self) -> bool {
        self is Undefined
    }

    open spec fn is_bounded(self) -> bool {
        self is Units
    }

    open spec fn lt(self, other: Amount) -> bool {
        self is Units && other is Units && self->0 < other->0
    }

    open spec fn le(self, other: Amount) -> bool {
        self is Units && other is Units && self->0 <= other->0
    }

    open spec fn same(self, other: Amount) -> bool {
        self is Units && self == other
    }

    open spec fn ranks(self, other: Amount) -> bool {
        other is Undefined || self.le(other)
    }

    fn is_nan(self) -> (b: bool) {
        match self {
            Amount::Units(_) => false,
            Amount::Undefined => true,
        }
    }

    fn is_finite(self) -> (b: bool) {
        match self {
            Amount::Units(_) => true,
            Amount::Undefined => false,
        }
    }

    fn below(self, other: Amount) -> (b: bool) {
        match (self, other) {
            (Amount::Units(x), Amount::Units(y)) => x < y,
            _ => false,
        }
    }

    fn at_most(self, other: Amount) -> (b: bool) {
        match (self, other) {
            (Amount::Units(x), Amount::Units(y)) => x <= y,
            _ => false,
        }
    }

    fn equals(self, other: Amount) -> (b: bool) {
        match (self, other) {
            (Amount::Units(x), Amount::Units(y)) => x == y,
            _ => false,
        }
    }

    fn ranked(self, other: Amount) -> (b: bool) {
        match other {
            Amount::Undefined => true,
            Amount::Units(_) => self.at_most(other),
        }
    }

    open spec fn index(self) -> usize {
        match self {
            Amount::Units(u) => if u < 0 {
                0
            } else if u as int / SCALE as int > usize::MAX {
                usize::MAX
            } else {
                (u as int / SCALE as int) as usize
            },
            Amount::Undefined => 0,
        }
    }

    fn to_index(self) -> (i: usize) {
        match self {
            Amount::Units(u) => if u < 0 {
                0
            } else {
                let whole: i128 = u as i128 / SCALE;
                if whole > usize::MAX as i128 {
                    usize::MAX
                } else {
                    whole as usize
                }
            },
            Amount::Undefined => 0,
        }
    }

    open spec fn fixed(self, decimals: nat) -> Seq<char> {
        fixed_text(self, decimals)
    }

    open spec fn fixed_signed(self, decimals: nat) -> Seq<char> {
        fixed_signed_text(self, decimals)
    }

    open spec fn shortest(self) -> Seq<char> {
        shortest_text(self)
    }

    open spec fn reading(text: Seq<char>) -> Option<Amount> {
        amount_reading(text)
    }

    fn to_fixed(self, decimals: usize) -> (s: String) {
        match self {
            Amount::Units(u) => {
                let mut text = String::new();
                if u < 0 {
                    text.push('-');
                }
                assert(text@ =~= sign_text(u as int));
                append_magnitude(&mut text, u, decimals);
                text
            },
            Amount::Undefined => "NaN".to_owned(),
        }
    }

    fn to_fixed_signed(self, decimals: usize) -> (s: String) {
        match self {
            Amount::Units(u) => {
                let mut text = String::new();
                if u < 0 {
                    text.push('-');
                    assert(text@ =~= seq!['-']);
                } else {
                    text.push('+');
                    assert(text@ =~= seq!['+']);
                }
                append_magnitude(&mut text, u, decimals);
                text
            },
            Amount::Undefined => "NaN".to_owned(),
        }
    }

    fn to_shortest(self) -> (s: String) {
        match self {
            Amount::Units(_) => {
                let mut chars: Vec<char> = chars_of(self.to_fixed(8).as_str());
                while chars.len() > 0 && chars[chars.len() - 1] == '0'
                    invariant
                        without_trailing_zeros(chars@) == self.shortest(),
                    decreases chars@.len(),
                {
                    chars.pop();
                }
                if chars.len() > 0 && chars[chars.len() - 1] == '.' {
                    chars.pop();
                }
                let text = text_of(&chars, 0, chars.len());
                assert(text@ =~= chars@);
                text
            },
            Amount::Undefined => "NaN".to_owned(),
        }
    }

    fn parse(text: &str) -> (r: Option<Amount>) {
        let chars: Vec<char> = chars_of(text);
        let signed = chars.len() > 0 && (chars[0] == '-' || chars[0] == '+');
        let from: usize = if signed {
            1
        } else {
            0
        };
        assert(chars@.skip(0) =~= chars@);
        match read_unsigned(&chars, from) {
            None => None,
            Some(units) => if signed && chars[0] == '-' {
                Some(fit(-units))
            } else {
                Some(fit(units))
            },
        }
    }
}

/// Scaling by something that is not negative, and rounding down, keeps the order.
pub proof fn lemma_scaled_order(x: int, y: int, z: int)
    requires
        x <= y,
        0 <= z,
    ensures
        (x * z) / (SCALE as int) <= (y * z) / (SCALE as int),
{
    assert(x * z <= y * z) by (nonlinear_arith)
        requires
            x <= y,
            0 <= z,
    ;
}

impl Lawful for Amount {
    proof fn law_undefined(a: Amount, b: Amount) {
    }

    proof fn law_undefined_is_undefined() {
    }

    proof fn law_absorbs(a: Amount, b: Amount) {
    }

    proof fn law_total(a: Amount, b: Amount) {
    }

    proof fn law_transitive(a: Amount, b: Amount, c: Amount) {
    }

    proof fn law_whole(a: int, b: int) {
    }

    proof fn law_gain(a: Amount, x: Amount) {
    }

    proof fn law_loss(a: Amount, x: Amount) {
    }

    proof fn law_difference(a: Amount, b: Amount) {
    }

    proof fn law_product(a: Amount, b: Amount) {
        let x = a->0 as int;
        let y = b->0 as int;
        assert(0 <= (x * y) / (SCALE as int)) by (nonlinear_arith)
            requires
                0 <= x,
                0 <= y,
                SCALE == 100_000_000,
        ;
    }

    proof fn law_sum_order(a: Amount, b: Amount, c: Amount) {
    }

    proof fn law_product_order(a: Amount, b: Amount, c: Amount) {
        lemma_scaled_order(a->0 as int, b->0 as int, c->0 as int);
    }

    proof fn law_scaling(a: Amount, b: Amount) {
        let x = a->0 as int;
        let y = b->0 as int;
        if SCALE <= y {
            assert(x <= (x * y) / (SCALE as int)) by (nonlinear_arith)
                requires
                    0 <= x,
                    SCALE <= y,
                    SCALE == 100_000_000,
            ;
        }
        if y <= SCALE {
            assert((x * y) / (SCALE as int) <= x) by (nonlinear_arith)
                requires
                    0 <= x,
                    y <= SCALE,
                    SCALE == 100_000_000,
            ;
        }
    }

    proof fn law_quotient(a: Amount, b: Amount) {
        let x = a->0 as int;
        let y = b->0 as int;
        assert(0 <= (x * SCALE) / y) by (nonlinear_arith)
            requires
                0 <= x,
                0 < y,
                SCALE == 100_000_000,
        ;
        if SCALE <= y {
            assert((x * SCALE) / y <= x) by (nonlinear_arith)
                requires
                    0 <= x,
                    SCALE <= y,
                    SCALE == 100_000_000,
            ;
        }
    }

    proof fn law_magnitude(a: Amount) {
    }

    proof fn law_negation(a: Amount) {
    }

    proof fn law_whole_is_bounded(a: int) {
    }

    proof fn law_units(a: Amount) {
    }

    proof fn law_rounding(a: Amount, b: Amount, increment: Amount) {
        if zero::<Amount>().lt(increment) {
            lemma_rounding_keeps_order(a, b, increment);
        }
    }
}

// ---------------------------------------------------------------------------
// What exact amounts are
// ---------------------------------------------------------------------------

/// Sums, differences, signs and comparisons are those of the units; what does not fit is
/// undefined, and so is what is made of something undefined.
pub proof fn law_units_are_added_and_compared(x: i64, y: i64, other: Amount)
    ensures
        i64::MIN <= x + y <= i64::MAX ==> Amount::Units(x).sum(Amount::Units(y)) == Amount::Units(
            (x + y) as i64,
        ),
        !(i64::MIN <= x + y <= i64::MAX) ==> Amount::Units(x).sum(Amount::Units(y)) is Undefined,
        i64::MIN <= x - y <= i64::MAX ==> Amount::Units(x).difference(Amount::Units(y))
            == Amount::Units((x - y) as i64),
        !(i64::MIN <= x - y <= i64::MAX) ==> Amount::Units(x).difference(Amount::Units(y))
            is Undefined,
        i64::MIN < x ==> Amount::Units(x).negation() == Amount::Units((-x) as i64),
        0 <= x ==> Amount::Units(x).magnitude() == Amount::Units(x),
        i64::MIN < x < 0 ==> Amount::Units(x).magnitude() == Amount::Units((-x) as i64),
        Amount::Units(x).lt(Amount::Units(y)) <==> x < y,
        Amount::Units(x).le(Amount::Units(y)) <==> x <= y,
        Amount::Units(x).same(Amount::Units(y)) <==> x == y,
        Amount::Units(x).ranks(Amount::Units(y)) <==> x <= y,
        other.ranks(Amount::Undefined) && !Amount::Undefined.ranks(Amount::Units(x)),
        !Amount::Undefined.lt(other) && !Amount::Undefined.le(other) && !Amount::Undefined.same(
            other,
        ),
        Amount::Undefined.sum(other) is Undefined && Amount::Undefined.difference(other)
            is Undefined && Amount::Undefined.product(other) is Undefined
            && Amount::Undefined.quotient(other) is Undefined,
        other.sum(Amount::Undefined) is Undefined && other.difference(Amount::Undefined)
            is Undefined && other.product(Amount::Undefined) is Undefined && other.quotient(
            Amount::Undefined,
        ) is Undefined,
{
}

/// Products, quotients and ratios are rounded down to a unit: the result is not above the
/// exact one, and one unit more is. Nothing is divided by zero.
pub proof fn law_products_and_quotients_are_rounded_down(x: i64, y: i64, num: int, den: int)
    requires
        den > 0,
    ensures
        Amount::Units(x).product(Amount::Units(y)) matches Amount::Units(r) ==> r * SCALE <= x * y
            < (r + 1) * SCALE,
        y > 0 ==> (Amount::Units(x).quotient(Amount::Units(y)) matches Amount::Units(r) ==> r * y
            <= x * SCALE < (r + 1) * y),
        y < 0 ==> (Amount::Units(x).quotient(Amount::Units(y)) matches Amount::Units(r) ==> r * y
            >= x * SCALE > (r + 1) * y),
        y == 0 ==> Amount::Units(x).quotient(Amount::Units(y)) is Undefined,
        Amount::of_ratio(num, den) matches Amount::Units(r) ==> r * den <= num * SCALE < (r + 1)
            * den,
{
    let s = SCALE as int;
    let a = x as int;
    let b = y as int;
    lemma_divided(a * b, s);
    if b > 0 {
        lemma_divided(a * s, b);
    }
    if b < 0 {
        lemma_divided(-(a * s), -b);
        let r = (-(a * s)) / (-b);
        assert(r * b >= a * s > (r + 1) * b) by (nonlinear_arith)
            requires
                r * (-b) <= -(a * s) < (r + 1) * (-b),
        ;
    }
    lemma_divided(num * s, den);
}

proof fn lemma_divided(n: int, d: int)
    requires
        d > 0,
    ensures
        (n / d) * d <= n < (n / d + 1) * d,
{
    let q = n / d;
    assert(q * d <= n < (q + 1) * d) by (nonlinear_arith)
        requires
            d > 0,
            q == n / d,
    ;
}

/// Products of what is not far apart are there: whatever fits is not undefined.
pub proof fn law_what_fits_is_defined(x: i64, y: i64)
    ensures
        i64::MIN * SCALE <= x * y < (i64::MAX + 1) * SCALE ==> Amount::Units(x).product(
            Amount::Units(y),
        ) is Units,
        y > 0 && i64::MIN * y <= x * SCALE < (i64::MAX + 1) * y ==> Amount::Units(x).quotient(
            Amount::Units(y),
        ) is Units,
{
    let s = SCALE as int;
    let p = x * y;
    if i64::MIN * SCALE <= p < (i64::MAX + 1) * SCALE {
        assert(i64::MIN <= p / s <= i64::MAX);
    }
    let n = x * s;
    let d = y as int;
    if y > 0 && i64::MIN * y <= x * SCALE < (i64::MAX + 1) * y {
        let q = n / d;
        assert(i64::MIN <= q <= i64::MAX) by (nonlinear_arith)
            requires
                d > 0,
                q == n / d,
                i64::MIN * d <= n < (i64::MAX + 1) * d,
        ;
    }
}

/// Whole amounts: the nearest one below, above and on either side. Halves go away from
/// zero.
pub proof fn law_whole_amounts(u: i64)
    ensures
        Amount::Units(u).whole_below() matches Amount::Units(w) ==> w as int % SCALE as int == 0
            && w <= u < w + SCALE,
        Amount::Units(u).whole_above() matches Amount::Units(w) ==> w as int % SCALE as int == 0
            && w - SCALE < u <= w,
        Amount::Units(u).whole_nearest() matches Amount::Units(w) ==> {
            &&& w as int % SCALE as int == 0
            &&& 2 * (w - u) <= SCALE
            &&& 2 * (u - w) <= SCALE
            &&& u > 0 ==> 2 * (u - w) < SCALE
            &&& u < 0 ==> 2 * (w - u) < SCALE
        },
        0 <= u ==> Amount::Units(u).whole_below() is Units,
        u <= 0 ==> Amount::Units(u).whole_above() is Units,
        u < 0 ==> Amount::Units(u).index() == 0,
        0 <= u && u as int / SCALE as int <= usize::MAX ==> Amount::Units(u).index() * SCALE <= u
            && u < (Amount::Units(u).index() + 1) * SCALE,
        Amount::Undefined.index() == 0,
{
    let s = SCALE as int;
    let n = u as int;
    vstd::arithmetic::div_mod::lemma_fundamental_div_mod(n, s);
    vstd::arithmetic::div_mod::lemma_fundamental_div_mod(n + (s - 1), s);
    vstd::arithmetic::div_mod::lemma_fundamental_div_mod(n + s / 2, s);
    vstd::arithmetic::div_mod::lemma_fundamental_div_mod(-n + s / 2, s);
    let a = n / s;
    let b = (n + (s - 1)) / s;
    let c = (n + s / 2) / s;
    let d = (-n + s / 2) / s;
    vstd::arithmetic::div_mod::lemma_mod_multiples_basic(a, s);
    vstd::arithmetic::div_mod::lemma_mod_multiples_basic(b, s);
    vstd::arithmetic::div_mod::lemma_mod_multiples_basic(c, s);
    vstd::arithmetic::div_mod::lemma_mod_multiples_basic(-d, s);
    assert((-d) * s == -(d * s)) by (nonlinear_arith);
}

} // verus!
