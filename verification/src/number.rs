//! The arithmetic that the trading rules are written over.
//!
//! Every rule of this crate is generic over [`Number`]. The program runs them on
//! machine floats; [`Amount`](crate::amount::Amount) runs them on exact
//! eight-decimal amounts. A contract names the operations and the order in which
//! they are applied, so it pins the result down for either.

use vstd::prelude::*;
use crate::exchange::rounded_down;

verus! {

/// A meaning for each operation of a [`Number`].
#[verifier::reject_recursive_types(S)]
pub struct Arithmetic<S> {
    pub of_ratio: spec_fn(int, int) -> S,
    pub undefined: S,
    pub lowest: S,
    pub highest: S,
    pub sum: spec_fn(S, S) -> S,
    pub difference: spec_fn(S, S) -> S,
    pub product: spec_fn(S, S) -> S,
    pub quotient: spec_fn(S, S) -> S,
    pub negation: spec_fn(S) -> S,
    pub magnitude: spec_fn(S) -> S,
    pub whole_below: spec_fn(S) -> S,
    pub whole_above: spec_fn(S) -> S,
    pub whole_nearest: spec_fn(S) -> S,
    pub is_undefined: spec_fn(S) -> bool,
    pub is_bounded: spec_fn(S) -> bool,
    pub lt: spec_fn(S, S) -> bool,
    pub le: spec_fn(S, S) -> bool,
    pub same: spec_fn(S, S) -> bool,
    pub ranks: spec_fn(S, S) -> bool,
    pub index: spec_fn(S) -> usize,
    pub fixed: spec_fn(S, nat) -> Seq<char>,
    pub fixed_signed: spec_fn(S, nat) -> Seq<char>,
    pub shortest: spec_fn(S) -> Seq<char>,
    pub reading: spec_fn(Seq<char>) -> Option<S>,
}

/// A number that prices, quantities and indicator values are computed in.
///
/// Each operation has a specification, and the executable method returns exactly
/// what the specification says: a fixed function of its operands. What the rules
/// of this crate promise is stated in terms of those functions, so it holds
/// whatever they are.
pub trait Number: Sized + Copy {
    /// What the operations compute, where an implementation does not say so
    /// itself: some function of the operands, the same at every call.
    open spec fn arithmetic() -> Arithmetic<Self> {
        arbitrary()
    }

    // ----- values -----

    /// The number that stands for `num / den`.
    open spec fn of_ratio(num: int, den: int) -> Self {
        (Self::arithmetic().of_ratio)(num, den)
    }

    /// The value that stands for "not computable".
    open spec fn undefined() -> Self {
        Self::arithmetic().undefined
    }

    /// The least value an ordinary number can take.
    open spec fn lowest() -> Self {
        Self::arithmetic().lowest
    }

    /// The greatest value an ordinary number can take.
    open spec fn highest() -> Self {
        Self::arithmetic().highest
    }

    fn ratio(num: i64, den: u64) -> (r: Self)
        requires
            den > 0,
        ensures
            r == Self::of_ratio(num as int, den as int),
    ;

    /// A count, as a number.
    fn count(n: u64) -> (r: Self)
        ensures
            r == Self::of_ratio(n as int, 1),
    ;

    fn nan() -> (r: Self)
        ensures
            r == Self::undefined(),
    ;

    fn min_value() -> (r: Self)
        ensures
            r == Self::lowest(),
    ;

    fn max_value() -> (r: Self)
        ensures
            r == Self::highest(),
    ;

    // ----- arithmetic -----

    open spec fn sum(self, other: Self) -> Self {
        (Self::arithmetic().sum)(self, other)
    }

    open spec fn difference(self, other: Self) -> Self {
        (Self::arithmetic().difference)(self, other)
    }

    open spec fn product(self, other: Self) -> Self {
        (Self::arithmetic().product)(self, other)
    }

    open spec fn quotient(self, other: Self) -> Self {
        (Self::arithmetic().quotient)(self, other)
    }

    open spec fn negation(self) -> Self {
        (Self::arithmetic().negation)(self)
    }

    /// The number without its sign.
    open spec fn magnitude(self) -> Self {
        (Self::arithmetic().magnitude)(self)
    }

    /// The greatest whole number that is not above `self`.
    open spec fn whole_below(self) -> Self {
        (Self::arithmetic().whole_below)(self)
    }

    /// The least whole number that is not below `self`.
    open spec fn whole_above(self) -> Self {
        (Self::arithmetic().whole_above)(self)
    }

    /// The nearest whole number, halves away from zero.
    open spec fn whole_nearest(self) -> Self {
        (Self::arithmetic().whole_nearest)(self)
    }

    fn plus(self, other: Self) -> (r: Self)
        ensures
            r == self.sum(other),
    ;

    fn minus(self, other: Self) -> (r: Self)
        ensures
            r == self.difference(other),
    ;

    fn times(self, other: Self) -> (r: Self)
        ensures
            r == self.product(other),
    ;

    fn over(self, other: Self) -> (r: Self)
        ensures
            r == self.quotient(other),
    ;

    fn neg(self) -> (r: Self)
        ensures
            r == self.negation(),
    ;

    fn abs(self) -> (r: Self)
        ensures
            r == self.magnitude(),
    ;

    fn floor(self) -> (r: Self)
        ensures
            r == self.whole_below(),
    ;

    fn ceil(self) -> (r: Self)
        ensures
            r == self.whole_above(),
    ;

    fn round(self) -> (r: Self)
        ensures
            r == self.whole_nearest(),
    ;

    // ----- comparison -----

    open spec fn is_undefined(self) -> bool {
        (Self::arithmetic().is_undefined)(self)
    }

    /// Neither undefined nor infinite.
    open spec fn is_bounded(self) -> bool {
        (Self::arithmetic().is_bounded)(self)
    }

    open spec fn lt(self, other: Self) -> bool {
        (Self::arithmetic().lt)(self, other)
    }

    open spec fn le(self, other: Self) -> bool {
        (Self::arithmetic().le)(self, other)
    }

    /// Numerically equal. Nothing is equal to an undefined number.
    open spec fn same(self, other: Self) -> bool {
        (Self::arithmetic().same)(self, other)
    }

    /// The order that places every number, undefined ones too.
    open spec fn ranks(self, other: Self) -> bool {
        (Self::arithmetic().ranks)(self, other)
    }

    fn is_nan(self) -> (b: bool)
        ensures
            b == self.is_undefined(),
    ;

    fn is_finite(self) -> (b: bool)
        ensures
            b == self.is_bounded(),
    ;

    fn below(self, other: Self) -> (b: bool)
        ensures
            b == self.lt(other),
    ;

    fn at_most(self, other: Self) -> (b: bool)
        ensures
            b == self.le(other),
    ;

    fn equals(self, other: Self) -> (b: bool)
        ensures
            b == self.same(other),
    ;

    /// Compares by the order that places every number. It is total and transitive.
    fn ranked(self, other: Self) -> (b: bool)
        ensures
            b == self.ranks(other),
            self.ranks(other) || other.ranks(self),
            self.ranks(other) ==> forall|x: Self| #[trigger] x.ranks(self) ==> x.ranks(other),
            other.ranks(self) ==> forall|x: Self| #[trigger] self.ranks(x) ==> other.ranks(x),
    ;

    /// The whole part as an index, `0` where there is none and `usize::MAX`
    /// where it is too large.
    open spec fn index(self) -> usize {
        (Self::arithmetic().index)(self)
    }

    fn to_index(self) -> (i: usize)
        ensures
            i == self.index(),
    ;

    // ----- text -----

    /// The number with exactly `decimals` decimals.
    open spec fn fixed(self, decimals: nat) -> Seq<char> {
        (Self::arithmetic().fixed)(self, decimals)
    }

    /// As `fixed`, with a sign in front of a number that is not negative too.
    open spec fn fixed_signed(self, decimals: nat) -> Seq<char> {
        (Self::arithmetic().fixed_signed)(self, decimals)
    }

    /// The shortest text that reads back as the number.
    open spec fn shortest(self) -> Seq<char> {
        (Self::arithmetic().shortest)(self)
    }

    /// What a text reads as, where it reads as a number at all.
    open spec fn reading(text: Seq<char>) -> Option<Self> {
        (Self::arithmetic().reading)(text)
    }

    fn to_fixed(self, decimals: usize) -> (s: String)
        ensures
            s@ == self.fixed(decimals as nat),
    ;

    fn to_fixed_signed(self, decimals: usize) -> (s: String)
        ensures
            s@ == self.fixed_signed(decimals as nat),
    ;

    fn to_shortest(self) -> (s: String)
        ensures
            s@ == self.shortest(),
    ;

    fn parse(text: &str) -> (r: Option<Self>)
        ensures
            r == Self::reading(text@),
    ;
}

/// A number that keeps the laws of order and sign, of units and of rounding.
///
/// The laws of order and sign hold of exact amounts and of rounded binary floats
/// alike. The last two, of units and of rounding, hold of exact amounts, and of floats
/// short of the sign of a zero, the bits of a NaN, and more steps than the tolerance
/// of the rounding covers. The executable code rests on none of them; the laws of this
/// crate do.
pub trait Lawful: Number {

    /// An undefined number stands in no relation to any number.
    proof fn law_undefined(a: Self, b: Self)
        requires
            a.is_undefined() || b.is_undefined(),
        ensures
            !a.lt(b),
            !a.le(b),
            !a.same(b),
    ;

    proof fn law_undefined_is_undefined()
        ensures
            Self::undefined().is_undefined(),
    ;

    /// What is computed from an undefined number is undefined.
    proof fn law_absorbs(a: Self, b: Self)
        requires
            a.is_undefined() || b.is_undefined(),
        ensures
            a.sum(b).is_undefined(),
            a.difference(b).is_undefined(),
            a.product(b).is_undefined(),
            a.quotient(b).is_undefined(),
            a.is_undefined() ==> a.negation().is_undefined() && a.magnitude().is_undefined(),
    ;

    /// Defined numbers are totally ordered.
    proof fn law_total(a: Self, b: Self)
        requires
            !a.is_undefined(),
            !b.is_undefined(),
        ensures
            a.le(b) || b.le(a),
            a.lt(b) == !b.le(a),
            a.same(b) == (a.le(b) && b.le(a)),
    ;

    proof fn law_transitive(a: Self, b: Self, c: Self)
        requires
            a.le(b),
            b.le(c),
        ensures
            a.le(c),
    ;

    /// Small whole numbers keep their order.
    proof fn law_whole(a: int, b: int)
        requires
            -1_000_000_000 <= a < b <= 1_000_000_000,
        ensures
            Self::of_ratio(a, 1).lt(Self::of_ratio(b, 1)),
    ;

    /// Small whole numbers are bounded.
    proof fn law_whole_is_bounded(a: int)
        requires
            -1_000_000_000 <= a <= 1_000_000_000,
        ensures
            Self::of_ratio(a, 1).is_bounded(),
    ;

    /// Adding something that is not negative never lowers a number.
    proof fn law_gain(a: Self, x: Self)
        requires
            Self::of_ratio(0, 1).le(x),
            !a.sum(x).is_undefined(),
        ensures
            a.le(a.sum(x)),
    ;

    /// Taking away something that is not negative never raises a number.
    proof fn law_loss(a: Self, x: Self)
        requires
            Self::of_ratio(0, 1).le(x),
            !a.difference(x).is_undefined(),
        ensures
            a.difference(x).le(a),
    ;

    /// A difference is positive exactly where the first number is the larger.
    proof fn law_difference(a: Self, b: Self)
        requires
            !a.difference(b).is_undefined(),
        ensures
            Self::of_ratio(0, 1).lt(a.difference(b)) == b.lt(a),
            Self::of_ratio(0, 1).le(a.difference(b)) == b.le(a),
    ;

    proof fn law_product(a: Self, b: Self)
        requires
            Self::of_ratio(0, 1).le(a),
            Self::of_ratio(0, 1).le(b),
            !a.product(b).is_undefined(),
        ensures
            Self::of_ratio(0, 1).le(a.product(b)),
    ;

    /// Adding the larger of two numbers never gives the smaller sum.
    proof fn law_sum_order(a: Self, b: Self, c: Self)
        requires
            a.le(b),
            !c.sum(a).is_undefined(),
            !c.sum(b).is_undefined(),
        ensures
            c.sum(a).le(c.sum(b)),
    ;

    /// Scaling by something that is not negative keeps two numbers in order.
    proof fn law_product_order(a: Self, b: Self, c: Self)
        requires
            a.le(b),
            Self::of_ratio(0, 1).le(c),
            !a.product(c).is_undefined(),
            !b.product(c).is_undefined(),
        ensures
            a.product(c).le(b.product(c)),
    ;

    /// Scaling by one or more never lowers a number that is not negative, and
    /// scaling by one or less never raises it.
    proof fn law_scaling(a: Self, b: Self)
        requires
            Self::of_ratio(0, 1).le(a),
            !a.product(b).is_undefined(),
        ensures
            Self::of_ratio(1, 1).le(b) ==> a.le(a.product(b)),
            b.le(Self::of_ratio(1, 1)) ==> a.product(b).le(a),
    ;

    /// Dividing by one or more never raises a number that is not negative.
    proof fn law_quotient(a: Self, b: Self)
        requires
            Self::of_ratio(0, 1).le(a),
            Self::of_ratio(0, 1).lt(b),
            !a.quotient(b).is_undefined(),
        ensures
            Self::of_ratio(0, 1).le(a.quotient(b)),
            Self::of_ratio(1, 1).le(b) ==> a.quotient(b).le(a),
    ;

    proof fn law_magnitude(a: Self)
        requires
            !a.magnitude().is_undefined(),
        ensures
            Self::of_ratio(0, 1).le(a.magnitude()),
    ;

    proof fn law_negation(a: Self)
        requires
            a.le(Self::of_ratio(0, 1)),
            !a.negation().is_undefined(),
        ensures
            Self::of_ratio(0, 1).le(a.negation()),
    ;

    /// Dividing by one and adding to zero change nothing.
    proof fn law_units(a: Self)
        ensures
            a.quotient(Self::of_ratio(1, 1)) == a,
            Self::of_ratio(0, 1).sum(a) == a,
    ;

    /// Rounding down to an increment keeps the sign, and does not take a number below
    /// one that is already rounded and no larger.
    proof fn law_rounding(a: Self, b: Self, increment: Self)
        requires
            Self::of_ratio(0, 1).le(a),
            !rounded_down(a, increment).is_undefined(),
        ensures
            Self::of_ratio(0, 1).le(rounded_down(a, increment)),
            rounded_down(a, increment).le(b) && !rounded_down(b, increment).is_undefined()
                ==> rounded_down(a, increment).le(rounded_down(b, increment)),
    ;
}

// ---------------------------------------------------------------------------
// Derived operations
// ---------------------------------------------------------------------------

pub open spec fn zero<S: Number>() -> S {
    S::of_ratio(0, 1)
}

/// The larger of two numbers; a number beside an undefined one wins.
pub open spec fn larger_of<S: Number>(a: S, b: S) -> S {
    if a.is_undefined() || a.lt(b) {
        b
    } else {
        a
    }
}

/// The smaller of two numbers; a number beside an undefined one wins.
pub open spec fn smaller_of<S: Number>(a: S, b: S) -> S {
    if a.is_undefined() || b.lt(a) {
        b
    } else {
        a
    }
}

/// The numbers added up from the left, starting at zero.
pub open spec fn total<S: Number>(values: Seq<S>) -> S
    decreases values.len(),
{
    if values.len() == 0 {
        zero::<S>()
    } else {
        total(values.drop_last()).sum(values.last())
    }
}

pub fn larger<S: Number>(a: S, b: S) -> (r: S)
    ensures
        r == larger_of(a, b),
{
    if a.is_nan() || a.below(b) {
        b
    } else {
        a
    }
}

pub fn smaller<S: Number>(a: S, b: S) -> (r: S)
    ensures
        r == smaller_of(a, b),
{
    if a.is_nan() || b.below(a) {
        b
    } else {
        a
    }
}

/// Adds up `values[from..to]`.
pub fn sum_range<S: Number>(values: &[S], from: usize, to: usize) -> (r: S)
    requires
        from <= to <= values@.len(),
    ensures
        r == total(values@.subrange(from as int, to as int)),
{
    let mut acc = S::ratio(0, 1);
    let mut i: usize = from;
    while i < to
        invariant
            from <= i <= to <= values@.len(),
            acc == total(values@.subrange(from as int, i as int)),
        decreases to - i,
    {
        acc = acc.plus(values[i]);
        proof {
            let part = values@.subrange(from as int, i + 1);
            assert(part.drop_last() =~= values@.subrange(from as int, i as int));
        }
        i = i + 1;
    }
    acc
}

/// Numbers that stand in an order are defined.
pub proof fn lemma_ordered<S: Lawful>(a: S, b: S)
    requires
        a.le(b) || a.lt(b),
    ensures
        !a.is_undefined(),
        !b.is_undefined(),
        a.le(b),
{
    if a.is_undefined() || b.is_undefined() {
        S::law_undefined(a, b);
    }
    S::law_total(a, b);
    S::law_total(b, a);
}

/// Zero is a defined number.
pub proof fn lemma_zero<S: Lawful>()
    ensures
        !zero::<S>().is_undefined(),
        zero::<S>().le(zero::<S>()),
{
    S::law_whole(0, 1);
    lemma_ordered(zero::<S>(), S::of_ratio(1, 1));
    S::law_total(zero::<S>(), zero::<S>());
}

/// A sum of numbers none of which is negative is not negative.
pub proof fn lemma_total_not_negative<S: Lawful>(values: Seq<S>)
    requires
        !total(values).is_undefined(),
        forall|i: int|
            0 <= i < values.len() ==> (#[trigger] values[i]).is_undefined() || zero::<S>().le(
                values[i],
            ),
    ensures
        zero::<S>().le(total(values)),
    decreases values.len(),
{
    if values.len() == 0 {
        lemma_zero::<S>();
    } else {
        let before = total(values.drop_last());
        if before.is_undefined() || values.last().is_undefined() {
            S::law_absorbs(before, values.last());
        }
        lemma_total_not_negative(values.drop_last());
        S::law_gain(before, values.last());
        S::law_transitive(zero::<S>(), before, total(values));
    }
}

/// A total starts at zero and takes in one number after another.
pub proof fn law_totals<S: Number>(values: Seq<S>, value: S)
    ensures
        total(Seq::<S>::empty()) == S::of_ratio(0, 1),
        total(values.push(value)) == total(values).sum(value),
{
    assert(values.push(value).drop_last() =~= values);
}

/// Of two numbers the larger and the smaller are among them, and nothing else is
/// larger or smaller. An undefined number is never preferred to a defined one.
pub proof fn law_larger_and_smaller<S: Lawful>(a: S, b: S)
    ensures
        larger_of(a, b) == a || larger_of(a, b) == b,
        smaller_of(a, b) == a || smaller_of(a, b) == b,
        !a.is_undefined() && !b.is_undefined() ==> a.le(larger_of(a, b)) && b.le(
            larger_of(a, b),
        ) && smaller_of(a, b).le(a) && smaller_of(a, b).le(b),
        a.is_undefined() ==> larger_of(a, b) == b && smaller_of(a, b) == b,
        b.is_undefined() && !a.is_undefined() ==> larger_of(a, b) == a && smaller_of(a, b) == a,
{
    if a.is_undefined() || b.is_undefined() {
        S::law_undefined(a, b);
        S::law_undefined(b, a);
    } else {
        S::law_total(a, b);
        S::law_total(b, a);
        S::law_total(a, a);
        S::law_total(b, b);
    }
}

} // verus!
