//! What rounding to lot steps and price ticks guarantees of exact amounts.

use vstd::prelude::*;
use vstd::arithmetic::div_mod::{lemma_fundamental_div_mod, lemma_mod_multiples_basic};
use crate::amount::{fitted, padded, power10, scaled_magnitude, Amount, SCALE};
use crate::exchange::{
    decimals_of, length_after_point, nearly_whole, power_of_ten, rounded_down, rounded_up, snapped,
    trimmed_end, SymbolFilters,
};
use crate::number::{zero, Number};
use crate::text::{decimal, digit};

verus! {

// ---------------------------------------------------------------------------
// Decimals of an increment
// ---------------------------------------------------------------------------

proof fn lemma_no_point_in_decimal(n: nat)
    ensures
        !decimal(n).contains('.'),
        decimal(n).len() > 0,
    decreases n,
{
    if n >= 10 {
        lemma_no_point_in_decimal(n / 10);
        let head = decimal(n / 10);
        assert forall|i: int| 0 <= i < decimal(n).len() implies decimal(n)[i] != '.' by {
            if i < head.len() {
                assert(head[i] != '.');
            }
        }
    }
}

proof fn lemma_no_point_in_padded(n: nat, width: nat)
    ensures
        !padded(n, width).contains('.'),
        padded(n, width).len() == width,
    decreases width,
{
    if width > 0 {
        let head = padded(n / 10, (width - 1) as nat);
        lemma_no_point_in_padded(n / 10, (width - 1) as nat);
        assert forall|i: int| 0 <= i < width implies padded(n, width)[i] != '.' by {
            if i < head.len() {
                assert(head[i] != '.');
            }
        }
    }
}

/// How many of the last `width` digits of `n` remain without the zeros at the
/// end.
spec fn kept_digits(n: nat, width: nat) -> nat
    decreases width,
{
    if width > 0 && n % 10 == 0 {
        kept_digits(n / 10, (width - 1) as nat)
    } else {
        width
    }
}

proof fn lemma_trimmed(head: Seq<char>, n: nat, width: nat)
    requires
        !head.contains('.'),
    ensures
        length_after_point(trimmed_end(head.push('.') + padded(n, width), '0')) == kept_digits(
            n,
            width,
        ),
    decreases width,
{
    let text = head.push('.') + padded(n, width);
    if width == 0 {
        assert(text =~= head.push('.'));
    } else {
        let front = padded(n / 10, (width - 1) as nat);
        assert(text.last() == digit(n % 10));
        assert(text.drop_last() =~= head.push('.') + front);
        if n % 10 == 0 {
            lemma_trimmed(head, n / 10, (width - 1) as nat);
        }
    }
    if width == 0 || n % 10 != 0 {
        lemma_no_point_in_padded(n, width);
        assert(trimmed_end(text, '0') == text);
        assert(text[head.len() as int] == '.');
        text.index_of_first_ensures('.');
        let first = text.index_of_first('.')->0;
        if first < head.len() {
            assert(head[first] == '.');
        }
        assert(first == head.len());
    }
}

proof fn lemma_power10_split(a: nat, b: nat)
    ensures
        power10(a + b) == power10(a) * power10(b),
        power10(a) >= 1,
    decreases a,
{
    if a > 0 {
        lemma_power10_split((a - 1) as nat, b);
        let p = power10((a - 1) as nat);
        let q = power10(b);
        assert(power10(a + b) == 10 * power10((a - 1 + b) as nat));
        assert((10 * p) * q == 10 * (p * q)) by (nonlinear_arith);
    } else {
        let q = power10(b);
        assert(power10(0) == 1);
        assert(1 * q == q) by (nonlinear_arith);
    }
}

/// What was trimmed off were factors of ten.
proof fn lemma_kept_digits(n: nat, width: nat)
    ensures
        kept_digits(n, width) <= width,
        n == (n / power10((width - kept_digits(n, width)) as nat)) * power10(
            (width - kept_digits(n, width)) as nat,
        ),
        power10((width - kept_digits(n, width)) as nat) >= 1,
    decreases width,
{
    if width > 0 && n % 10 == 0 {
        lemma_kept_digits(n / 10, (width - 1) as nat);
        let k = kept_digits(n, width);
        let cut = power10((width - 1 - k) as nat);
        let m = (n / 10) / cut;
        assert(power10((width - k) as nat) == 10 * cut);
        assert(n == m * (10 * cut)) by (nonlinear_arith)
            requires
                n == 10 * (n / 10),
                n / 10 == m * cut,
        ;
        assert(n / (10 * cut) == m) by (nonlinear_arith)
            requires
                n == m * (10 * cut),
                cut >= 1,
        ;
    } else {
        assert(power10(0) == 1);
        assert((n / 1) * 1 == n) by (nonlinear_arith);
    }
}

proof fn lemma_power10_values()
    ensures
        power10(0) == 1,
        power10(8) == 100_000_000,
{
    reveal_with_fuel(power10, 9);
}

/// An increment has at most eight decimals, and is a whole number of its last
/// one.
proof fn lemma_increment(increment: i64)
    requires
        increment > 0,
    ensures
        decimals_of(Amount::Units(increment)) <= 8,
        ({
            let d = decimals_of(Amount::Units(increment));
            let unit = power10((8 - d) as nat) as int;
            &&& unit >= 1
            &&& increment as int == (increment as int / unit) * unit
            &&& power10(d) * unit == SCALE
        }),
{
    let inc = Amount::Units(increment);
    let n = increment as nat;
    lemma_power10_values();
    assert(scaled_magnitude(increment as int, 8) == n) by {
        assert((2 * n + 1) / 2 == n);
    }
    let head = decimal((n / power10(8)) as nat);
    lemma_no_point_in_decimal((n / power10(8)) as nat);
    assert(inc.fixed(8) =~= head.push('.') + padded(n, 8));
    lemma_trimmed(head, n, 8);
    lemma_kept_digits(n, 8);
    let d = kept_digits(n, 8);
    assert(decimals_of(inc) == d);
    lemma_power10_split(d, (8 - d) as nat);
}

// ---------------------------------------------------------------------------
// Snapping
// ---------------------------------------------------------------------------

proof fn lemma_power_of_ten(d: nat)
    requires
        d <= 8,
    ensures
        power_of_ten::<Amount>(d) == Amount::Units((power10(d) * SCALE) as i64),
        1 <= power10(d) <= 100_000_000,
    decreases d,
{
    reveal_with_fuel(power10, 9);
    if d > 0 {
        lemma_power_of_ten((d - 1) as nat);
        let p = power10((d - 1) as nat) as int;
        let s = SCALE as int;
        assert((p * s) * (10 * s) / s == 10 * p * s) by (nonlinear_arith)
            requires
                s == 100_000_000,
        ;
    }
}

/// A multiple of an increment is already at the increment's precision.
proof fn lemma_snapped(k: int, increment: i64)
    requires
        increment > 0,
        0 <= k,
        k * increment <= i64::MAX,
        snapped(Amount::Units((k * increment) as i64), Amount::Units(increment)) is Units,
    ensures
        snapped(Amount::Units((k * increment) as i64), Amount::Units(increment)) == Amount::Units(
            (k * increment) as i64,
        ),
{
    lemma_increment(increment);
    let d = decimals_of(Amount::Units(increment));
    let p = power10(d) as int;
    let s = SCALE as int;
    let unit = power10((8 - d) as nat) as int;
    let m = increment as int / unit;
    let v = k * increment;
    lemma_power_of_ten(d);
    assert(v >= 0) by (nonlinear_arith)
        requires
            k >= 0,
            increment > 0,
            v == k * increment,
    ;
    // v * p is a whole number of units of SCALE.
    assert((v * (p * s)) / s == v * p) by (nonlinear_arith)
        requires
            s == 100_000_000,
    ;
    let w = k * m;
    assert(v * p == w * s) by (nonlinear_arith)
        requires
            v == k * (m * unit),
            p * unit == s,
            w == k * m,
    ;
    assert(w >= 0) by (nonlinear_arith)
        requires
            w * s == v * p,
            v >= 0,
            p >= 1,
            s == 100_000_000,
    ;
    assert(Amount::Units(v as i64).product(power_of_ten::<Amount>(d)) == fitted(w * s));
    assert((w * s + s / 2) / s == w) by (nonlinear_arith)
        requires
            s == 100_000_000,
    ;
    assert(fitted(w * s) is Units);
    assert(fitted(w * s).whole_nearest() == fitted(w * s));
    assert((w * s) * s / (p * s) == v) by (nonlinear_arith)
        requires
            v * p == w * s,
            p >= 1,
            s == 100_000_000,
    ;
}

/// A count of steps is taken as it is: exact amounts carry no rounding noise.
proof fn lemma_never_nearly_whole(steps: Amount)
    ensures
        !nearly_whole(steps),
{
    let s = SCALE as int;
    assert(s / 1_000_000_000 == 0);
    assert(Amount::of_ratio(1, 1_000_000_000) == Amount::Units(0));
    let gap = steps.whole_nearest().difference(steps);
    if gap.magnitude() is Units {
        assert(gap.magnitude()->0 >= 0);
    }
}

/// Rounding down gives the largest multiple of the increment that is not above
/// the value: no more than the value, less than one increment below it.
pub proof fn law_rounds_down_to_a_multiple(value: i64, increment: i64)
    requires
        value >= 0,
        increment > 0,
        rounded_down(Amount::Units(value), Amount::Units(increment)) is Units,
    ensures
        rounded_down(Amount::Units(value), Amount::Units(increment)) == Amount::Units(
            ((value as int / increment as int) * increment) as i64,
        ),
        ({
            let r = rounded_down(Amount::Units(value), Amount::Units(increment))->0;
            &&& 0 <= r <= value
            &&& value - r < increment
            &&& r as int % increment as int == 0
        }),
{
    let v = value as int;
    let i = increment as int;
    let s = SCALE as int;
    let k = v / i;
    let steps = Amount::Units(value).quotient(Amount::Units(increment));
    lemma_fundamental_div_mod(v, i);
    lemma_never_nearly_whole(steps);
    assert(0 <= k && k * i <= v && v - k * i < i) by (nonlinear_arith)
        requires
            v == i * k + v % i,
            0 <= v % i < i,
            v >= 0,
            i > 0,
    ;
    let q = (v * s) / i;
    assert(q / s == k) by (nonlinear_arith)
        requires
            q == (v * s) / i,
            k == v / i,
            i > 0,
            v >= 0,
            s == 100_000_000,
    ;
    if steps is Units {
        assert(steps == Amount::Units(q as i64));
        assert(k * s <= q) by (nonlinear_arith)
            requires
                k == q / s,
                s == 100_000_000,
        ;
        assert(steps.whole_below() == Amount::Units((k * s) as i64));
        assert((k * s) * i / s == k * i) by (nonlinear_arith)
            requires
                s == 100_000_000,
        ;
        assert(steps.whole_below().product(Amount::Units(increment)) == Amount::Units(
            (k * i) as i64,
        ));
        lemma_snapped(k, increment);
    } else {
        assert(snapped(Amount::Undefined, Amount::Units(increment)) is Undefined);
    }
    lemma_mod_multiples_basic(k, i);
    assert(k * i == i * k) by (nonlinear_arith);
}

/// Rounding what is already rounded changes nothing.
pub proof fn law_rounding_down_is_idempotent(value: i64, increment: i64)
    requires
        value >= 0,
        increment > 0,
        rounded_down(Amount::Units(value), Amount::Units(increment)) is Units,
        rounded_down(
            rounded_down(Amount::Units(value), Amount::Units(increment)),
            Amount::Units(increment),
        ) is Units,
    ensures
        rounded_down(
            rounded_down(Amount::Units(value), Amount::Units(increment)),
            Amount::Units(increment),
        ) == rounded_down(Amount::Units(value), Amount::Units(increment)),
{
    law_rounds_down_to_a_multiple(value, increment);
    let once = rounded_down(Amount::Units(value), Amount::Units(increment))->0;
    law_rounds_down_to_a_multiple(once, increment);
    lemma_fundamental_div_mod(once as int, increment as int);
    assert((once as int / increment as int) * increment == increment * (once as int
        / increment as int)) by (nonlinear_arith);
}

/// Rounding down keeps the sign, and does not take an amount below one that is already
/// rounded and no larger.
pub proof fn lemma_rounding_keeps_order(a: Amount, b: Amount, increment: Amount)
    requires
        zero::<Amount>().le(a),
        zero::<Amount>().lt(increment),
        rounded_down(a, increment) is Units,
    ensures
        zero::<Amount>().le(rounded_down(a, increment)),
        rounded_down(a, increment).le(b) && rounded_down(b, increment) is Units ==> rounded_down(
            a,
            increment,
        ).le(rounded_down(b, increment)),
{
    law_rounds_down_to_a_multiple(a->0, increment->0);
    let low = rounded_down(a, increment);
    if low.le(b) && rounded_down(b, increment) is Units {
        law_rounds_down_to_a_multiple(b->0, increment->0);
        let s = low->0 as int;
        let r = rounded_down(b, increment)->0 as int;
        let t = increment->0 as int;
        lemma_fundamental_div_mod(s, t);
        lemma_fundamental_div_mod(r, t);
        let m = s / t;
        let n = r / t;
        assert(m <= n) by (nonlinear_arith)
            requires
                t * m - t < t * n,
                t > 0,
        ;
        assert(t * m <= t * n) by (nonlinear_arith)
            requires
                m <= n,
                t > 0,
        ;
    }
}

/// Rounding up gives the least multiple of the increment that is not below the
/// value, for increments of up to one. Beyond that the count of steps is itself
/// rounded down, and a remainder of a unit can be lost.
pub proof fn law_rounds_up_to_a_multiple(value: i64, increment: i64)
    requires
        value >= 0,
        0 < increment <= SCALE,
        rounded_up(Amount::Units(value), Amount::Units(increment)) is Units,
    ensures
        ({
            let r = rounded_up(Amount::Units(value), Amount::Units(increment))->0;
            &&& value <= r
            &&& r - value < increment
            &&& r as int % increment as int == 0
        }),
{
    let v = value as int;
    let i = increment as int;
    let s = SCALE as int;
    let steps = Amount::Units(value).quotient(Amount::Units(increment));
    lemma_never_nearly_whole(steps);
    if steps is Units {
        let q = (v * s) / i;
        assert(steps == Amount::Units(q as i64));
        let k = (q + (s - 1)) / s;
        assert(q >= 0) by (nonlinear_arith)
            requires
                q == (v * s) / i,
                v >= 0,
                i > 0,
                s == 100_000_000,
        ;
        lemma_ceiling(v, i, s);
        assert(steps.whole_above() == fitted(k * s));
        if fitted(k * s) is Units {
            assert((k * s) * i / s == k * i) by (nonlinear_arith)
                requires
                    s == 100_000_000,
            ;
            assert(steps.whole_above().product(Amount::Units(increment)) == fitted(k * i));
            if fitted(k * i) is Units {
                lemma_snapped(k, increment);
            } else {
                assert(snapped(Amount::Undefined, Amount::Units(increment)) is Undefined);
            }
        } else {
            assert(snapped(Amount::Undefined, Amount::Units(increment)) is Undefined);
        }
        lemma_mod_multiples_basic(k, i);
        assert(k * i == i * k) by (nonlinear_arith);
    } else {
        assert(snapped(Amount::Undefined, Amount::Units(increment)) is Undefined);
    }
}

/// The ceiling of the floored ratio, in units of `s`: as long as a step is not
/// finer than a unit, nothing is lost by flooring first.
proof fn lemma_ceiling(v: int, i: int, s: int)
    requires
        v >= 0,
        i > 0,
        s > 0,
    ensures
        ({
            let q = (v * s) / i;
            let k = (q + (s - 1)) / s;
            0 <= k && k * i - v < i && (i <= s ==> v <= k * i)
        }),
{
    let q = (v * s) / i;
    let k = (q + (s - 1)) / s;
    assert(0 <= q) by (nonlinear_arith)
        requires
            q == (v * s) / i,
            v >= 0,
            i > 0,
            s > 0,
    ;
    assert(q * i <= v * s) by (nonlinear_arith)
        requires
            q == (v * s) / i,
            i > 0,
    ;
    assert(0 <= k && k * s <= q + (s - 1) && q <= k * s) by (nonlinear_arith)
        requires
            k == (q + (s - 1)) / s,
            q >= 0,
            s > 0,
    ;
    assert(v * s < q * i + i) by (nonlinear_arith)
        requires
            q == (v * s) / i,
            i > 0,
    ;
    if i <= s {
        assert(q * i <= (k * i) * s) by (nonlinear_arith)
            requires
                q <= k * s,
                i > 0,
        ;
        assert(v <= k * i) by (nonlinear_arith)
            requires
                v * s < q * i + i,
                q * i <= (k * i) * s,
                i <= s,
                s > 0,
        ;
    }
    assert(k * i - v < i) by (nonlinear_arith)
        requires
            k * s <= q + (s - 1),
            q * i <= v * s,
            i > 0,
            s > 0,
    ;
}

/// The smallest tradable quantity is accepted by every filter, and no smaller
/// multiple of the step is.
///
/// Left out is the one case in which the quantity that the notional asks for is
/// itself rounded down to a unit and that unit happens to be on a step.
pub proof fn law_smallest_tradable(
    filters: SymbolFilters<Amount>,
    price: i64,
    step: i64,
    min_qty: i64,
    min_notional: i64,
    k: int,
)
    requires
        filters.step_size == Amount::Units(step),
        filters.min_qty == Amount::Units(min_qty),
        filters.min_notional == Amount::Units(min_notional),
        0 < step <= SCALE,
        0 < price,
        0 <= min_notional,
        filters.smallest_tradable(Amount::Units(price)) is Units,
        filters.smallest_tradable(Amount::Units(price))->0 > 0,
        filters.smallest_tradable(Amount::Units(price)).product(Amount::Units(price)) is Units,
        !zero::<Amount>().lt(filters.max_qty) || filters.smallest_tradable(Amount::Units(price)).le(
            filters.max_qty,
        ),
        Amount::Units(min_notional).quotient(Amount::Units(price)) is Units,
        rounded_up(
            Amount::Units(min_notional).quotient(Amount::Units(price)),
            Amount::Units(step),
        ) is Units,
        (min_notional * SCALE) % (price as int) == 0 || (Amount::Units(min_notional).quotient(
            Amount::Units(price),
        )->0 as int) % (step as int) != 0,
        0 <= k,
    ensures
        filters.verdict(filters.smallest_tradable(Amount::Units(price)), Amount::Units(price))
            is Ok,
        k * step < filters.smallest_tradable(Amount::Units(price))->0 ==> filters.verdict(
            Amount::Units((k * step) as i64),
            Amount::Units(price),
        ) is Err,
{
    let p = price as int;
    let s = SCALE as int;
    let st = step as int;
    let mn = min_notional as int;
    let q = (mn * s) / p;
    let wanted = Amount::Units(min_notional).quotient(Amount::Units(price));
    assert(wanted == Amount::Units(q as i64));
    assert(q >= 0) by (nonlinear_arith)
        requires
            q == (mn * s) / p,
            mn >= 0,
            p > 0,
            s == 100_000_000,
    ;
    law_rounds_up_to_a_multiple(q as i64, step);
    let u = rounded_up(wanted, Amount::Units(step))->0 as int;
    let r = filters.smallest_tradable(Amount::Units(price))->0 as int;
    lemma_fundamental_div_mod(mn * s, p);
    assert(q * p <= mn * s && mn * s < (q + 1) * p) by (nonlinear_arith)
        requires
            mn * s == p * q + (mn * s) % p,
            0 <= (mn * s) % p < p,
    ;
    assert(r * p >= mn * s) by {
        if (mn * s) % p == 0 {
            assert(r * p >= mn * s) by (nonlinear_arith)
                requires
                    r >= q,
                    p > 0,
                    mn * s == p * q,
            ;
        } else {
            assert(u != q);
            assert(r * p >= mn * s) by (nonlinear_arith)
                requires
                    r >= q + 1,
                    p > 0,
                    mn * s < (q + 1) * p,
            ;
        }
    }
    assert((r * p) / s >= mn) by (nonlinear_arith)
        requires
            r * p >= mn * s,
            s == 100_000_000,
    ;
    if k * step < r {
        let low = k * st;
        assert(low >= 0) by (nonlinear_arith)
            requires
                low == k * st,
                k >= 0,
                st > 0,
        ;
        if low >= min_qty {
            // Then the notional is what binds, and `low` is at least a step short.
            assert(r == u);
            lemma_fundamental_div_mod(u, st);
            assert(low <= u - st) by (nonlinear_arith)
                requires
                    low == k * st,
                    u == st * (u / st),
                    low < u,
                    st > 0,
            ;
            assert(low < q);
            assert((low * p) / s < mn) by (nonlinear_arith)
                requires
                    low < q,
                    q * p <= mn * s,
                    p > 0,
                    s == 100_000_000,
            ;
            assert((low * p) / s >= 0) by (nonlinear_arith)
                requires
                    low >= 0,
                    p > 0,
                    s == 100_000_000,
            ;
        }
    }
}

} // verus!
