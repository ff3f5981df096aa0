//! What is written for an amount reads back as that amount.

use vstd::prelude::*;
use crate::amount::{
    amount_reading, fixed_text, magnitude_text_short, padded, power10, scaled_magnitude, sign_text,
    unsigned_reading, without_trailing_zeros, Amount, SCALE,
};
use crate::binance::decimal_text;
use crate::exchange::trimmed_end;
use crate::number::Number;
use crate::text::{all_digits, count_reading, decimal, digit, digits_value, is_digit};

verus! {

proof fn lemma_digit(d: nat)
    requires
        d < 10,
    ensures
        is_digit(digit(d)),
        (digit(d) as u32 - 48) as nat == d,
{
}

proof fn lemma_decimal(n: nat)
    ensures
        all_digits(decimal(n)),
        digits_value(decimal(n)) == n,
    decreases n,
{
    lemma_digit(n % 10);
    let text = decimal(n);
    if n < 10 {
        assert(text.drop_last() =~= Seq::<char>::empty());
        assert(digits_value(text.drop_last()) == 0);
        assert(text.last() == digit(n));
    } else {
        lemma_decimal(n / 10);
        assert(text.drop_last() =~= decimal(n / 10));
        assert forall|i: int| 0 <= i < text.len() implies is_digit(#[trigger] text[i]) by {
            if i < text.len() - 1 {
                assert(decimal(n / 10)[i] == text[i]);
            }
        }
    }
}

/// A count that was written down reads back as itself.
pub proof fn law_counts_read_back(n: u64)
    ensures
        count_reading(decimal(n as nat)) == Some(n),
{
    lemma_decimal(n as nat);
    lemma_no_sign(decimal(n as nat));
}

proof fn lemma_no_sign(text: Seq<char>)
    requires
        all_digits(text),
    ensures
        text[0] != '-',
        text[0] != '+',
        !text.contains('.'),
{
    assert(is_digit(text[0]));
    if text.contains('.') {
        let i = choose|i: int| 0 <= i < text.len() && text[i] == '.';
        assert(is_digit(text[i]));
    }
}

proof fn lemma_padded(n: nat, width: nat)
    ensures
        padded(n, width).len() == width,
        forall|i: int| 0 <= i < width ==> is_digit(#[trigger] padded(n, width)[i]),
        digits_value(padded(n, width)) == n % power10(width),
        power10(width) > 0,
    decreases width,
{
    if width > 0 {
        let w = (width - 1) as nat;
        lemma_padded(n / 10, w);
        lemma_digit(n % 10);
        let text = padded(n, width);
        assert(text.drop_last() =~= padded(n / 10, w));
        assert forall|i: int| 0 <= i < width implies is_digit(#[trigger] text[i]) by {
            if i < w {
                assert(padded(n / 10, w)[i] == text[i]);
            }
        }
        let p = power10(w);
        assert(n % (10 * p) == ((n / 10) % p) * 10 + n % 10) by (nonlinear_arith)
            requires
                p > 0,
        {
            vstd::arithmetic::div_mod::lemma_mod_breakdown(n as int, 10, p as int);
        }
    }
}

/// Zeros taken from the end of some decimals leave a numeral of the same value.
proof fn lemma_trim_decimals(head: Seq<char>, tail: Seq<char>)
    requires
        head.len() > 0,
        head.last() == '.',
        forall|i: int| 0 <= i < tail.len() ==> is_digit(#[trigger] tail[i]),
    ensures
        ({
            let kept = trimmed_end(head + tail, '0');
            let left = kept.skip(head.len() as int);
            &&& head.len() <= kept.len() <= head.len() + tail.len()
            &&& kept == head + left
            &&& left == tail.take(left.len() as int)
            &&& left.len() > 0 ==> left.last() != '0'
            &&& digits_value(left) * power10((tail.len() - left.len()) as nat) == digits_value(tail)
        }),
    decreases tail.len(),
{
    let text = head + tail;
    let kept = trimmed_end(text, '0');
    if tail.len() == 0 {
        assert(text =~= head);
        assert(kept =~= head);
        assert(kept.skip(head.len() as int) =~= Seq::<char>::empty());
        assert(tail.take(0) =~= Seq::<char>::empty());
        assert(kept =~= head + kept.skip(head.len() as int));
        assert(0 * power10(0) == 0);
    } else if tail.last() == '0' {
        assert(text.last() == '0');
        assert(text.drop_last() =~= head + tail.drop_last());
        let rest = tail.drop_last();
        assert forall|i: int| 0 <= i < rest.len() implies is_digit(#[trigger] rest[i]) by {
            assert(rest[i] == tail[i]);
        }
        lemma_trim_decimals(head, rest);
        let left = kept.skip(head.len() as int);
        assert(rest.take(left.len() as int) =~= tail.take(left.len() as int));
        let k = (rest.len() - left.len()) as nat;
        assert(power10((tail.len() - left.len()) as nat) == 10 * power10(k));
        assert(digits_value(tail) == digits_value(rest) * 10);
        assert(digits_value(left) * (10 * power10(k)) == (digits_value(left) * power10(k)) * 10)
            by (nonlinear_arith);
    } else {
        assert(text.last() == tail.last());
        assert(kept == text);
        assert(kept.skip(head.len() as int) =~= tail);
        assert(tail.take(tail.len() as int) =~= tail);
        assert(kept =~= head + kept.skip(head.len() as int));
        assert(digits_value(tail) * power10(0) == digits_value(tail)) by {
            assert(power10(0) == 1);
        }
    }
}

proof fn lemma_unsigned_reads_back(m: nat, whole: Seq<char>, left: Seq<char>)
    requires
        m <= 0x8000_0000_0000_0000,
        all_digits(whole),
        digits_value(whole) == m / SCALE as nat,
        left.len() <= 8,
        forall|i: int| 0 <= i < left.len() ==> is_digit(#[trigger] left[i]),
        digits_value(left) * power10((8 - left.len()) as nat) == m % SCALE as nat,
    ensures
        unsigned_reading(
            if left.len() > 0 {
                whole.push('.') + left
            } else {
                whole
            },
        ) == Some(m as int),
{
    lemma_no_sign(whole);
    let scale = SCALE as nat;
    vstd::arithmetic::div_mod::lemma_fundamental_div_mod(m as int, scale as int);
    if left.len() > 0 {
        let text = whole.push('.') + left;
        let p = whole.len() as int;
        assert(text[p] == '.');
        assert(text.contains('.'));
        assert forall|i: int| 0 <= i < p implies text[i] != '.' by {
            assert(text[i] == whole[i]);
            assert(whole.contains(whole[i]));
        }
        text.index_of_first_ensures('.');
        assert(text.index_of_first('.')->0 == p);
        assert(text.take(p) =~= whole);
        assert(text.skip(p + 1) =~= left);
    } else {
        assert(whole.take(whole.len() as int) =~= whole);
        let p = power10(8);
        assert(digits_value(left) * p == 0) by (nonlinear_arith)
            requires
                digits_value(left) == 0,
        ;
    }
}

proof fn lemma_full_text(units: i64, m: nat)
    requires
        m == (if units < 0 {
            -(units as int)
        } else {
            units as int
        }),
    ensures
        fixed_text(Amount::Units(units), 8) == (sign_text(units as int) + decimal(
            m / SCALE as nat,
        )).push('.') + padded(m, 8),
        power10(8) == SCALE,
{
    assert(power10(8) == SCALE && power10(0) == 1) by {
        reveal_with_fuel(power10, 9);
    }
    assert(scaled_magnitude(units as int, 8) == (2 * m + 1) / 2);
    let whole = decimal(m / SCALE as nat);
    assert(magnitude_text_short(units as int, 8) == whole.push('.') + padded(m, 8));
    assert(fixed_text(Amount::Units(units), 8) =~= (sign_text(units as int) + whole).push('.')
        + padded(m, 8));
}

/// A point with nothing after it goes; one with decimals after it stays.
proof fn lemma_trim_point(front: Seq<char>, left: Seq<char>)
    requires
        front.len() > 0,
        is_digit(front.last()),
        left.len() > 0 ==> is_digit(left.last()),
    ensures
        trimmed_end(front.push('.') + left, '.') == (if left.len() > 0 {
            front.push('.') + left
        } else {
            front
        }),
{
    let text = front.push('.') + left;
    if left.len() > 0 {
        assert(text.last() == left.last());
    } else {
        assert(text =~= front.push('.'));
        assert(text.drop_last() =~= front);
        assert(trimmed_end(text, '.') == trimmed_end(front, '.'));
    }
}

/// Writing an amount for the venue loses nothing: what is written reads back as the
/// amount.
pub proof fn law_written_amounts_read_back(units: i64)
    ensures
        amount_reading(decimal_text(Amount::Units(units))) == Some(Amount::Units(units)),
{
    let m = (if units < 0 {
        -(units as int)
    } else {
        units as int
    }) as nat;
    let whole = decimal(m / SCALE as nat);
    let tail = padded(m, 8);
    let sign = sign_text(units as int);
    let front = sign + whole;
    lemma_full_text(units, m);
    lemma_decimal(m / SCALE as nat);
    lemma_no_sign(whole);
    lemma_padded(m, 8);
    lemma_trim_decimals(front.push('.'), tail);
    let kept = trimmed_end(front.push('.') + tail, '0');
    let left = kept.skip(front.push('.').len() as int);
    assert forall|i: int| 0 <= i < left.len() implies is_digit(#[trigger] left[i]) by {
        assert(left[i] == tail[i]);
    }
    assert(front.last() == whole[whole.len() - 1]);
    if left.len() > 0 {
        assert(left.last() == left[left.len() - 1]);
    }
    lemma_trim_point(front, left);
    lemma_unsigned_reads_back(m, whole, left);
    let body = if left.len() > 0 {
        whole.push('.') + left
    } else {
        whole
    };
    let text = decimal_text(Amount::Units(units));
    assert(text =~= sign + body);
    assert(body[0] == whole[0]);
    if units < 0 {
        assert(text[0] == '-');
        assert(text.skip(1) =~= body);
    } else {
        assert(text =~= body);
    }
}

proof fn lemma_without_trailing_zeros(text: Seq<char>)
    ensures
        ({
            let kept = trimmed_end(text, '0');
            without_trailing_zeros(text) == if kept.len() > 0 && kept.last() == '.' {
                kept.drop_last()
            } else {
                kept
            }
        }),
    decreases text.len(),
{
    if text.len() > 0 && text.last() == '0' {
        lemma_without_trailing_zeros(text.drop_last());
    }
}

/// The shortest text of an amount is what is written for the venue, so it reads back as
/// the amount too.
pub proof fn law_shortest_texts_read_back(units: i64)
    ensures
        Amount::Units(units).shortest() == decimal_text(Amount::Units(units)),
        amount_reading(Amount::Units(units).shortest()) == Some(Amount::Units(units)),
{
    law_written_amounts_read_back(units);
    let m = (if units < 0 {
        -(units as int)
    } else {
        units as int
    }) as nat;
    let whole = decimal(m / SCALE as nat);
    let tail = padded(m, 8);
    let front = sign_text(units as int) + whole;
    lemma_full_text(units, m);
    lemma_decimal(m / SCALE as nat);
    lemma_padded(m, 8);
    lemma_trim_decimals(front.push('.'), tail);
    let text = front.push('.') + tail;
    let kept = trimmed_end(text, '0');
    let left = kept.skip(front.push('.').len() as int);
    assert forall|i: int| 0 <= i < left.len() implies is_digit(#[trigger] left[i]) by {
        assert(left[i] == tail[i]);
    }
    assert(front.last() == whole[whole.len() - 1]);
    if left.len() > 0 {
        assert(left.last() == left[left.len() - 1]);
        assert(kept.last() == left.last());
    } else {
        assert(kept =~= front.push('.'));
        assert(kept.drop_last() =~= front);
    }
    lemma_trim_point(front, left);
    lemma_without_trailing_zeros(text);
}

proof fn lemma_powers(n: nat)
    requires
        n <= 8,
    ensures
        power10(n) >= 1,
        power10((8 - n) as nat) >= 1,
        power10((8 - n) as nat) * power10(n) == SCALE,
        power10((8 - n) as nat) <= SCALE,
    decreases n,
{
    if n == 0 {
        assert(power10(8) == SCALE && power10(0) == 1) by {
            reveal_with_fuel(power10, 9);
        }
        let most = power10(8);
        assert(most * 1 == most) by (nonlinear_arith);
    } else {
        lemma_powers((n - 1) as nat);
        let a = power10((8 - n) as nat);
        let b = power10((n - 1) as nat);
        let c = power10((8 - (n - 1)) as nat);
        assert(c == 10 * a);
        assert(power10(n) == 10 * b);
        assert(c * b == SCALE);
        assert(a * (10 * b) == (10 * a) * b) by (nonlinear_arith);
    }
}

/// An amount with fewer decimals is the nearest one: what is written reads back as an
/// amount no more than half of the last decimal away. A plus stands in front of what is
/// not negative where a sign is asked for.
pub proof fn law_fixed_texts_are_the_nearest(units: i64, decimals: nat)
    requires
        decimals <= 8,
        -i64::MAX + SCALE <= units <= i64::MAX - SCALE,
    ensures
        amount_reading(Amount::Units(units).fixed(decimals)) matches Some(Amount::Units(read)) && {
            &&& 2 * (read - units) <= power10((8 - decimals) as nat)
            &&& 2 * (units - read) <= power10((8 - decimals) as nat)
        },
        units < 0 ==> Amount::Units(units).fixed_signed(decimals) == Amount::Units(units).fixed(
            decimals,
        ),
        units >= 0 ==> Amount::Units(units).fixed_signed(decimals) == seq!['+'] + Amount::Units(
            units,
        ).fixed(decimals),
        units >= 0 ==> Amount::Units(units).fixed(decimals)[0] != '-',
{
    let m = (if units < 0 {
        -(units as int)
    } else {
        units as int
    }) as nat;
    let s = SCALE as nat;
    let unit = power10((8 - decimals) as nat);
    let base = power10(decimals);
    lemma_powers(decimals);
    let q = scaled_magnitude(units as int, decimals);
    assert(q == (2 * m + unit) / (2 * unit));
    assert(2 * (q * unit - m) <= unit && 2 * (m - q * unit) <= unit) by (nonlinear_arith)
        requires
            q == (2 * m + unit) / (2 * unit),
            unit >= 1,
    ;
    let v = q * unit;
    let whole = decimal(q / base);
    let left = padded(q, decimals);
    lemma_decimal(q / base);
    lemma_no_sign(whole);
    lemma_padded(q, decimals);
    let a = q / base;
    let b = q % base;
    assert(v / s == a && v % s == b * unit) by (nonlinear_arith)
        requires
            a == q / base,
            b == q % base,
            base >= 1,
            unit >= 1,
            unit * base == s,
            v == q * unit,
    {
        assert(q == base * a + b && 0 <= b < base);
        assert(v == s * a + b * unit);
        assert(0 <= b * unit < s);
        vstd::arithmetic::div_mod::lemma_fundamental_div_mod_converse(
            v as int,
            s as int,
            a as int,
            (b * unit) as int,
        );
    }
    lemma_unsigned_reads_back(v, whole, left);
    let body = if left.len() > 0 {
        whole.push('.') + left
    } else {
        whole
    };
    let sign = sign_text(units as int);
    let text = Amount::Units(units).fixed(decimals);
    assert(magnitude_text_short(units as int, decimals) == body);
    assert(text =~= sign + body);
    assert(body[0] == whole[0]);
    if units < 0 {
        assert(text[0] == '-');
        assert(text.skip(1) =~= body);
    } else {
        assert(text =~= body);
    }
}

} // verus!
