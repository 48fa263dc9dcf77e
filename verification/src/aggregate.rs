//! Order statistics and the mean over a population of sampled values.
//!
//! What each aggregate is, is said over the integers that the values stand for
//! ([`ints`]): [`Seq::min`], [`Seq::max`], [`mean_of`], [`median_of`] and
//! [`percentile_of`]. None of them depends on the order of the values
//! ([`lemma_order_independent`]).

use crate::numeric::{signed, Numeric};
use crate::ordered::Ordered;
use crate::traits::{Sample, SampleAggregate};
use vstd::prelude::*;
use vstd::relations::{sorted_by, total_ordering};
use vstd::seq_lib::{lemma_fold_left_permutation, lemma_sorted_unique};

verus! {

/// The smallest of the sampled values.
#[derive(Debug, Clone, Copy, PartialEq, Eq, PartialOrd)]
pub struct Minimum<T>(pub T);

/// The largest of the sampled values.
#[derive(Debug, Clone, Copy, PartialEq, Eq, PartialOrd)]
pub struct Maximum<T>(pub T);

/// The value at index `n / 2` of the `n` sampled values in ascending order: for an
/// even `n` the upper of the two in the middle, not their average.
#[derive(Debug, Clone, Copy, PartialEq, Eq, PartialOrd)]
pub struct Median<T>(pub T);

/// The sum of the sampled values divided by their number, rounded towards zero.
#[derive(Debug, Clone, Copy, PartialEq, Eq, PartialOrd)]
pub struct Mean<T>(pub T);

/// The value at index `P * n / 100`, rounded down, of the `n` sampled values in
/// ascending order. `P` is below 100.
#[derive(Debug, Clone, Copy, PartialEq, Eq, PartialOrd)]
pub struct Percentile<T, const P: u8>(pub T);

impl<T> core::ops::Deref for Minimum<T> {
    type Target = T;

    fn deref(&self) -> (value: &T)
        ensures
            *value == self.0,
    {
        &self.0
    }
}

impl<T> core::ops::Deref for Maximum<T> {
    type Target = T;

    fn deref(&self) -> (value: &T)
        ensures
            *value == self.0,
    {
        &self.0
    }
}

impl<T> core::ops::Deref for Median<T> {
    type Target = T;

    fn deref(&self) -> (value: &T)
        ensures
            *value == self.0,
    {
        &self.0
    }
}

impl<T> core::ops::Deref for Mean<T> {
    type Target = T;

    fn deref(&self) -> (value: &T)
        ensures
            *value == self.0,
    {
        &self.0
    }
}

impl<T, const P: u8> core::ops::Deref for Percentile<T, P> {
    type Target = T;

    fn deref(&self) -> (value: &T)
        ensures
            *value == self.0,
    {
        &self.0
    }
}

/// The integers that the values of `s` stand for, in the order of `s`.
pub open spec fn ints<T: Numeric>(s: Seq<T>) -> Seq<int> {
    s.map_values(|x: T| x.as_int())
}

/// The order of the integers.
pub open spec fn int_leq() -> spec_fn(int, int) -> bool {
    |x: int, y: int| x <= y
}

/// Addition, as the step of a sum.
pub open spec fn plus() -> spec_fn(int, int) -> int {
    |acc: int, x: int| acc + x
}

/// The values of `s` in ascending order.
pub open spec fn ascending(s: Seq<int>) -> Seq<int> {
    s.sort_by(int_leq())
}

/// The sum of the values of `s`.
pub open spec fn total(s: Seq<int>) -> int {
    s.fold_left(0int, plus())
}

/// `a` divided by a positive `n`, rounded towards zero.
pub open spec fn truncated_quotient(a: int, n: int) -> int {
    if a >= 0 {
        a / n
    } else {
        -((-a) / n)
    }
}

/// The mean of the values of `s`, rounded towards zero.
pub open spec fn mean_of(s: Seq<int>) -> int {
    truncated_quotient(total(s), s.len() as int)
}

/// The value at index `n / 2` of the `n` values of `s` in ascending order.
pub open spec fn median_of(s: Seq<int>) -> int {
    ascending(s)[s.len() as int / 2]
}

/// The value at index `p * n / 100`, rounded down, of the `n` values of `s` in
/// ascending order.
pub open spec fn percentile_of(s: Seq<int>, p: int) -> int {
    ascending(s)[p * s.len() / 100]
}

/// The order of the integers is total.
pub proof fn lemma_int_leq_total()
    ensures
        total_ordering(int_leq()),
{
}

/// The ascending order of `s` holds the values of `s`, as often as `s` does, from
/// the smallest to the largest.
pub proof fn lemma_ascending(s: Seq<int>)
    ensures
        ascending(s).len() == s.len(),
        ascending(s).to_multiset() == s.to_multiset(),
        forall|i: int, j: int|
            0 <= i <= j < s.len() ==> (#[trigger] ascending(s)[i]) <= (#[trigger] ascending(s)[j]),
{
    lemma_int_leq_total();
    s.lemma_sort_by_ensures(int_leq());
    vstd::seq_lib::to_multiset_len(s);
    vstd::seq_lib::to_multiset_len(ascending(s));
    let a = ascending(s);
    assert forall|i: int, j: int| 0 <= i <= j < s.len() implies (#[trigger] a[i]) <= (
    #[trigger] a[j]) by {
        if i < j {
            assert(int_leq()(a[i], a[j]));
        }
    }
}

/// Two sequences that hold the same values equally often have the same minimum,
/// maximum, mean, median and percentiles.
pub proof fn lemma_order_independent(a: Seq<int>, b: Seq<int>)
    requires
        a.to_multiset() == b.to_multiset(),
    ensures
        a.len() == b.len(),
        a.min() == b.min(),
        a.max() == b.max(),
        mean_of(a) == mean_of(b),
        median_of(a) == median_of(b),
        forall|p: int| percentile_of(a, p) == percentile_of(b, p),
        ascending(a) == ascending(b),
{
    broadcast use vstd::seq_lib::group_to_multiset_ensures;

    vstd::seq_lib::to_multiset_len(a);
    vstd::seq_lib::to_multiset_len(b);
    lemma_int_leq_total();
    a.lemma_sort_by_ensures(int_leq());
    b.lemma_sort_by_ensures(int_leq());
    lemma_sorted_unique(ascending(a), ascending(b), int_leq());
    lemma_fold_left_permutation(a, b, plus(), 0int);
    a.min_ensures();
    b.min_ensures();
    a.max_ensures();
    b.max_ensures();
    if a.len() > 0 {
        assert(a.to_multiset().count(a.min()) > 0);
        assert(b.contains(a.min()));
        assert(b.to_multiset().count(b.min()) > 0);
        assert(a.contains(b.min()));
        assert(a.to_multiset().count(a.max()) > 0);
        assert(b.contains(a.max()));
        assert(b.to_multiset().count(b.max()) > 0);
        assert(a.contains(b.max()));
    }
}

/// Two sequences that hold the same values equally often stand for the same
/// integers equally often.
pub proof fn lemma_ints_of_permutation<T: Numeric>(a: Seq<T>, b: Seq<T>)
    requires
        a.to_multiset() == b.to_multiset(),
    ensures
        ints(a).to_multiset() == ints(b).to_multiset(),
    decreases a.len(),
{
    broadcast use vstd::seq_lib::group_to_multiset_ensures;

    vstd::seq_lib::to_multiset_len(a);
    vstd::seq_lib::to_multiset_len(b);
    if a.len() == 0 {
        assert(ints(a) =~= ints(b));
    } else {
        let x = a.last();
        assert(a.to_multiset().count(x) > 0);
        assert(b.contains(x));
        let i = b.index_of(x);
        let rest_a = a.drop_last();
        let rest_b = b.remove(i);
        assert(a =~= rest_a.push(x));
        assert(b =~= rest_b.insert(i, x));
        vstd::seq_lib::to_multiset_build(rest_a, x);
        vstd::seq_lib::to_multiset_insert(rest_b, i, x);
        assert(rest_a.to_multiset() =~= a.to_multiset().remove(x));
        assert(rest_b.to_multiset() =~= b.to_multiset().remove(x));
        lemma_ints_of_permutation(rest_a, rest_b);
        assert(ints(a) =~= ints(rest_a).push(x.as_int()));
        assert(ints(b) =~= ints(rest_b).insert(i, x.as_int()));
        vstd::seq_lib::to_multiset_build(ints(rest_a), x.as_int());
        vstd::seq_lib::to_multiset_insert(ints(rest_b), i, x.as_int());
    }
}

/// The aggregates of two populations that hold the same values equally often, in
/// whatever order, are the same.
pub proof fn lemma_order_independent_values<T: Numeric>(a: Seq<T>, b: Seq<T>)
    requires
        a.to_multiset() == b.to_multiset(),
    ensures
        ints(a).min() == ints(b).min(),
        ints(a).max() == ints(b).max(),
        mean_of(ints(a)) == mean_of(ints(b)),
        median_of(ints(a)) == median_of(ints(b)),
        forall|p: int| percentile_of(ints(a), p) == percentile_of(ints(b), p),
{
    lemma_ints_of_permutation(a, b);
    lemma_order_independent(ints(a), ints(b));
}

/// The values of `values` in ascending order.
pub fn sorted<T: Numeric>(values: &[T]) -> (out: Vec<T>)
    ensures
        ints(out@) == ascending(ints(values@)),
        out@.len() == values@.len(),
{
    let mut out: Vec<T> = Vec::new();
    let mut i: usize = 0;
    assert(ints(out@) =~= ints(values@.take(0)));
    while i < values.len()
        invariant
            i <= values@.len(),
            out@.len() == i,
            sorted_by(ints(out@), int_leq()),
            ints(out@).to_multiset() == ints(values@.take(i as int)).to_multiset(),
        decreases values@.len() - i,
    {
        let x = values[i];
        let mut at: usize = 0;
        while at < out.len() && Ordered(out[at]).le(&Ordered(x))
            invariant
                at <= out@.len(),
                forall|j: int| 0 <= j < at ==> (#[trigger] out@[j]).as_int() <= x.as_int(),
            decreases out@.len() - at,
        {
            at += 1;
        }
        proof {
            let before = ints(out@);
            let after = before.insert(at as int, x.as_int());
            assert(ints(out@.insert(at as int, x)) =~= after);
            assert(ints(values@.take(i + 1)) =~= ints(values@.take(i as int)).push(x.as_int()));
            vstd::seq_lib::to_multiset_insert(before, at as int, x.as_int());
            vstd::seq_lib::to_multiset_build(ints(values@.take(i as int)), x.as_int());
            assert forall|a: int, b: int| 0 <= a < b < after.len() implies #[trigger] int_leq()(
                after[a],
                after[b],
            ) by {
                if b < at {
                    assert(int_leq()(before[a], before[b]));
                    assert(after[a] == before[a] && after[b] == before[b]);
                } else if b == at {
                    assert(after[a] == out@[a].as_int());
                } else if a < at {
                    assert(after[a] == before[a] && after[b] == before[b - 1]);
                    if a < b - 1 {
                        assert(int_leq()(before[a], before[b - 1]));
                    }
                } else if a == at {
                    assert(after[b] == before[b - 1]);
                    assert(before[at as int] == out@[at as int].as_int());
                    if at < b - 1 {
                        assert(int_leq()(before[at as int], before[b - 1]));
                    }
                } else {
                    assert(after[a] == before[a - 1] && after[b] == before[b - 1]);
                    assert(int_leq()(before[a - 1], before[b - 1]));
                }
            }
        }
        out.insert(at, x);
        i += 1;
    }
    proof {
        assert(values@.take(values@.len() as int) =~= values@);
        lemma_int_leq_total();
        ints(values@).lemma_sort_by_ensures(int_leq());
        lemma_sorted_unique(ints(out@), ascending(ints(values@)), int_leq());
    }
    out
}

/// Appending a value adds it to the sum.
pub proof fn lemma_total_push(s: Seq<int>, x: int)
    ensures
        total(s.push(x)) == total(s) + x,
{
    assert(s.push(x).drop_last() =~= s);
}

/// The sum of `n` values between `lo` and `hi` lies between `n * lo` and `n * hi`.
pub proof fn lemma_total_bounds(s: Seq<int>, lo: int, hi: int)
    requires
        forall|i: int| 0 <= i < s.len() ==> lo <= #[trigger] s[i] <= hi,
    ensures
        s.len() * lo <= total(s) <= s.len() * hi,
    decreases s.len(),
{
    if s.len() > 0 {
        let rest = s.drop_last();
        lemma_total_bounds(rest, lo, hi);
        assert(s =~= rest.push(s.last()));
        lemma_total_push(rest, s.last());
        assert((rest.len() + 1) * lo == rest.len() * lo + lo) by (nonlinear_arith);
        assert((rest.len() + 1) * hi == rest.len() * hi + hi) by (nonlinear_arith);
    }
}

/// A quotient rounded towards zero stays between the bounds of what was divided.
pub proof fn lemma_quotient_between(a: int, n: int, lo: int, hi: int)
    requires
        n > 0,
        n * lo <= a <= n * hi,
    ensures
        lo <= truncated_quotient(a, n) <= hi,
{
    if a >= 0 {
        vstd::arithmetic::div_mod::lemma_div_is_ordered(a, n * hi, n);
        vstd::arithmetic::div_mod::lemma_div_multiples_vanish(hi, n);
        vstd::arithmetic::div_mod::lemma_div_is_ordered(0, a, n);
        if lo > 0 {
            vstd::arithmetic::div_mod::lemma_div_is_ordered(n * lo, a, n);
            vstd::arithmetic::div_mod::lemma_div_multiples_vanish(lo, n);
        }
    } else {
        assert(n * (-lo) == -(n * lo)) by (nonlinear_arith);
        assert(n * (-hi) == -(n * hi)) by (nonlinear_arith);
        vstd::arithmetic::div_mod::lemma_div_is_ordered(-a, n * (-lo), n);
        vstd::arithmetic::div_mod::lemma_div_multiples_vanish(-lo, n);
        vstd::arithmetic::div_mod::lemma_div_is_ordered(0, -a, n);
        if hi < 0 {
            vstd::arithmetic::div_mod::lemma_div_is_ordered(n * (-hi), -a, n);
            vstd::arithmetic::div_mod::lemma_div_multiples_vanish(-hi, n);
        }
    }
}

/// The mean of a population lies between its smallest and its largest value.
pub proof fn lemma_mean_between(s: Seq<int>)
    requires
        s.len() > 0,
    ensures
        s.min() <= mean_of(s) <= s.max(),
{
    s.min_ensures();
    s.max_ensures();
    lemma_total_bounds(s, s.min(), s.max());
    lemma_quotient_between(total(s), s.len() as int, s.min(), s.max());
}

/// `values` are what the projection gave for the states `components`, one value for
/// each state, in their order.
pub open spec fn sampled_from<C: Sample<O>, O>(components: Seq<&C>, values: Seq<O>) -> bool {
    &&& values.len() == components.len()
    &&& forall|i: int|
        0 <= i < values.len() ==> call_ensures(C::sample, (components[i],), #[trigger] values[i])
}

/// The values that `components` project to, in their order.
pub fn sample_all<C: Sample<O>, O>(components: &[&C]) -> (values: Vec<O>)
    ensures
        sampled_from::<C, O>(components@, values@),
{
    let mut values: Vec<O> = Vec::new();
    let mut i: usize = 0;
    while i < components.len()
        invariant
            i <= components@.len(),
            values@.len() == i,
            forall|j: int|
                0 <= j < i ==> call_ensures(C::sample, (components@[j],), #[trigger] values@[j]),
        decreases components@.len() - i,
    {
        values.push(C::sample(components[i]));
        i += 1;
    }
    values
}

impl<T: Numeric> Minimum<T> {
    /// Whether this is the smallest of `values`.
    pub open spec fn is_of(self, values: Seq<T>) -> bool {
        self.0.as_int() == ints(values).min()
    }

    /// The smallest of `values`.
    pub fn of(values: &[T]) -> (out: Self)
        requires
            values@.len() > 0,
        ensures
            out.0.as_int() == ints(values@).min(),
            values@.contains(out.0),
    {
        let mut best = values[0];
        let mut i: usize = 1;
        while i < values.len()
            invariant
                1 <= i <= values@.len(),
                exists|k: int| 0 <= k < i && values@[k] == best,
                forall|j: int| 0 <= j < i ==> best.as_int() <= (#[trigger] values@[j]).as_int(),
            decreases values@.len() - i,
        {
            if !Ordered(best).le(&Ordered(values[i])) {
                best = values[i];
            }
            i += 1;
        }
        proof {
            let s = ints(values@);
            s.min_ensures();
            let k = choose|k: int| 0 <= k < values@.len() && values@[k] == best;
            assert(s[k] == best.as_int());
            let m = choose|m: int| 0 <= m < s.len() && s[m] == s.min();
            assert(best.as_int() <= values@[m].as_int());
        }
        Minimum(best)
    }

    /// The smallest of `values`, or `None` if there are none.
    pub fn try_of(values: &[T]) -> (out: Option<Self>)
        ensures
            out is None <==> values@.len() == 0,
            out is Some ==> out.unwrap().0.as_int() == ints(values@).min() && values@.contains(
                out.unwrap().0,
            ),
    {
        if values.len() == 0 {
            None
        } else {
            Some(Self::of(values))
        }
    }
}

impl<T: Numeric> Maximum<T> {
    /// Whether this is the largest of `values`.
    pub open spec fn is_of(self, values: Seq<T>) -> bool {
        self.0.as_int() == ints(values).max()
    }

    /// The largest of `values`.
    pub fn of(values: &[T]) -> (out: Self)
        requires
            values@.len() > 0,
        ensures
            out.0.as_int() == ints(values@).max(),
            values@.contains(out.0),
    {
        let mut best = values[0];
        let mut i: usize = 1;
        while i < values.len()
            invariant
                1 <= i <= values@.len(),
                exists|k: int| 0 <= k < i && values@[k] == best,
                forall|j: int| 0 <= j < i ==> (#[trigger] values@[j]).as_int() <= best.as_int(),
            decreases values@.len() - i,
        {
            if !Ordered(values[i]).le(&Ordered(best)) {
                best = values[i];
            }
            i += 1;
        }
        proof {
            let s = ints(values@);
            s.max_ensures();
            let k = choose|k: int| 0 <= k < values@.len() && values@[k] == best;
            assert(s[k] == best.as_int());
            let m = choose|m: int| 0 <= m < s.len() && s[m] == s.max();
            assert(values@[m].as_int() <= best.as_int());
        }
        Maximum(best)
    }

    /// The largest of `values`, or `None` if there are none.
    pub fn try_of(values: &[T]) -> (out: Option<Self>)
        ensures
            out is None <==> values@.len() == 0,
            out is Some ==> out.unwrap().0.as_int() == ints(values@).max() && values@.contains(
                out.unwrap().0,
            ),
    {
        if values.len() == 0 {
            None
        } else {
            Some(Self::of(values))
        }
    }
}

/// The index of the median among `n` values in ascending order: `n / 2`.
pub fn median_rank(n: usize) -> (at: usize)
    ensures
        at == n / 2,
        n > 0 ==> at < n,
{
    n / 2
}

/// The index of the percentile `p` among `n` values in ascending order:
/// `p * n / 100`, rounded down.
pub fn percentile_rank(p: u8, n: usize) -> (at: usize)
    requires
        p < 100,
    ensures
        at == p * n / 100,
        n > 0 ==> at < n,
{
    assert(p * n <= 100 * 0xffff_ffff_ffff_ffff) by (nonlinear_arith)
        requires
            0 <= p < 100,
            0 <= n <= 0xffff_ffff_ffff_ffff,
    ;
    let wide = (p as u128) * (n as u128) / 100;
    assert(p * n / 100 <= n) by (nonlinear_arith)
        requires
            0 <= p < 100,
            0 <= n,
    ;
    assert(n > 0 ==> p * n / 100 < n) by (nonlinear_arith)
        requires
            0 <= p < 100,
            0 <= n,
    ;
    wide as usize
}

impl<T: Numeric> Median<T> {
    /// Whether this is the median of `values`.
    pub open spec fn is_of(self, values: Seq<T>) -> bool {
        self.0.as_int() == median_of(ints(values))
    }

    /// The value in the middle of `values` in ascending order.
    pub fn of(values: &[T]) -> (out: Self)
        requires
            values@.len() > 0,
        ensures
            out.0.as_int() == median_of(ints(values@)),
    {
        let in_order = sorted(values);
        let middle = median_rank(in_order.len());
        assert(ints(in_order@)[middle as int] == in_order@[middle as int].as_int());
        Median(in_order[middle])
    }

    /// The value in the middle of `values` in ascending order, or `None` if there
    /// are none.
    pub fn try_of(values: &[T]) -> (out: Option<Self>)
        ensures
            out is None <==> values@.len() == 0,
            out is Some ==> out.unwrap().0.as_int() == median_of(ints(values@)),
    {
        if values.len() == 0 {
            None
        } else {
            Some(Self::of(values))
        }
    }
}

impl<T: Numeric, const P: u8> Percentile<T, P> {
    /// Whether this is the percentile `P` of `values`.
    pub open spec fn is_of(self, values: Seq<T>) -> bool {
        self.0.as_int() == percentile_of(ints(values), P as int)
    }

    /// The index of the percentile among `n` sorted values: `P * n / 100`, rounded down.
    pub fn rank(n: usize) -> (at: usize)
        requires
            P < 100,
        ensures
            at == P * n / 100,
            n > 0 ==> at < n,
    {
        percentile_rank(P, n)
    }

    /// The value at [`Self::rank`] of `values` in ascending order.
    pub fn of(values: &[T]) -> (out: Self)
        requires
            values@.len() > 0,
            P < 100,
        ensures
            out.0.as_int() == percentile_of(ints(values@), P as int),
    {
        let in_order = sorted(values);
        let at = Self::rank(in_order.len());
        assert(ints(in_order@)[at as int] == in_order@[at as int].as_int());
        Percentile(in_order[at])
    }

    /// The value at [`Self::rank`] of `values` in ascending order, or `None` if
    /// there are no values or `P` is not below 100.
    pub fn try_of(values: &[T]) -> (out: Option<Self>)
        ensures
            out is None <==> (values@.len() == 0 || P >= 100),
            out is Some ==> out.unwrap().0.as_int() == percentile_of(ints(values@), P as int),
    {
        if values.len() == 0 || P >= 100 {
            None
        } else {
            Some(Self::of(values))
        }
    }
}

impl<T: Numeric> Mean<T> {
    /// Whether this is the mean of `values`.
    pub open spec fn is_of(self, values: Seq<T>) -> bool {
        self.0.as_int() == mean_of(ints(values))
    }

    /// The sum of `values` divided by their number, rounded towards zero.
    pub fn of(values: &[T]) -> (out: Self)
        requires
            values@.len() > 0,
        ensures
            out.0.as_int() == mean_of(ints(values@)),
    {
        let n = values.len();
        let count = n as u128;
        // The values at or above zero and the magnitudes of those below are summed
        // apart, each sum held as `count * quotient + remainder`: the quotients stay
        // within the range of the values, whatever the sums come to.
        let mut above_parts: (u128, u128) = (0, 0);
        let mut below_parts: (u128, u128) = (0, 0);
        let mut i: usize = 0;
        proof {
            assert(ints(values@.take(0)) =~= Seq::<int>::empty());
            assert(above(ints(values@.take(0))) == 0);
            assert(below(ints(values@.take(0))) == 0);
            assert(count * 0 == 0) by (nonlinear_arith);
        }
        while i < n
            invariant
                n == values@.len(),
                count == n,
                0 < n,
                i <= n,
                above_parts.1 < count,
                below_parts.1 < count,
                count * above_parts.0 + above_parts.1 == above(ints(values@.take(i as int))),
                count * below_parts.0 + below_parts.1 == below(ints(values@.take(i as int))),
                above(ints(values@.take(i as int))) <= i * u128::MAX,
                below(ints(values@.take(i as int))) <= i * u128::MAX,
            decreases n - i,
        {
            let value = values[i];
            let m = value.magnitude();
            proof {
                T::lemma_value_fits(value);
                assert(ints(values@.take(i + 1)) =~= ints(values@.take(i as int)).push(
                    value.as_int(),
                ));
                assert(ints(values@.take(i as int)).push(value.as_int()).drop_last() =~= ints(
                    values@.take(i as int),
                ));
                assert((i + 1) * u128::MAX <= count * u128::MAX) by (nonlinear_arith)
                    requires
                        i + 1 <= count,
                ;
                assert((i + 1) * u128::MAX == i * u128::MAX + u128::MAX) by (nonlinear_arith);
            }
            if value.is_negative() {
                below_parts = add_to_sum(below_parts.0, below_parts.1, m, count);
            } else {
                above_parts = add_to_sum(above_parts.0, above_parts.1, m, count);
            }
            i += 1;
        }
        let (qa, ra) = above_parts;
        let (qb, rb) = below_parts;
        let ghost s = ints(values@);
        let (negative, magnitude) = if qa > qb {
            (false, if ra >= rb {
                qa - qb
            } else {
                qa - qb - 1
            })
        } else if qa < qb {
            (true, if rb >= ra {
                qb - qa
            } else {
                qb - qa - 1
            })
        } else {
            (false, 0)
        };
        proof {
            assert(values@.take(n as int) =~= values@);
            lemma_total_split(s);
            assert(total(s) == count * (qa - qb) + (ra - rb)) by (nonlinear_arith)
                requires
                    total(s) == above(s) - below(s),
                    count * qa + ra == above(s),
                    count * qb + rb == below(s),
            ;
            lemma_quotient_of_parts(count as int, qa - qb, ra - rb);
            assert(signed(negative, magnitude) == mean_of(s));
            lemma_mean_between(s);
            s.min_ensures();
            s.max_ensures();
            let lo = choose|k: int| 0 <= k < s.len() && s[k] == s.min();
            let hi = choose|k: int| 0 <= k < s.len() && s[k] == s.max();
            T::lemma_value_fits(values@[lo]);
            T::lemma_value_fits(values@[hi]);
            T::lemma_interval(s.min(), mean_of(s), s.max());
        }
        Mean(T::from_parts(negative, magnitude))
    }

    /// The sum of `values` divided by their number, rounded towards zero, or `None`
    /// if there are none.
    pub fn try_of(values: &[T]) -> (out: Option<Self>)
        ensures
            out is None <==> values@.len() == 0,
            out is Some ==> out.unwrap().0.as_int() == mean_of(ints(values@)),
    {
        if values.len() == 0 {
            None
        } else {
            Some(Self::of(values))
        }
    }
}

/// The sum of the values of `s` that are at or above zero.
pub open spec fn above(s: Seq<int>) -> int
    decreases s.len(),
{
    if s.len() == 0 {
        0
    } else {
        above(s.drop_last()) + if s.last() >= 0 {
            s.last()
        } else {
            0
        }
    }
}

/// The sum of the magnitudes of the values of `s` that are below zero.
pub open spec fn below(s: Seq<int>) -> int
    decreases s.len(),
{
    if s.len() == 0 {
        0
    } else {
        below(s.drop_last()) + if s.last() < 0 {
            -s.last()
        } else {
            0
        }
    }
}

/// A sum is its part at or above zero less its part below.
pub proof fn lemma_total_split(s: Seq<int>)
    ensures
        total(s) == above(s) - below(s),
        above(s) >= 0,
        below(s) >= 0,
    decreases s.len(),
{
    if s.len() > 0 {
        lemma_total_split(s.drop_last());
    }
}

/// The quotient, rounded towards zero, of `n * d + e` by `n`, where `e` is smaller
/// than `n` in magnitude: `d`, or one closer to zero where `e` pulls the other way.
pub proof fn lemma_quotient_of_parts(n: int, d: int, e: int)
    requires
        n > 0,
        -n < e < n,
    ensures
        truncated_quotient(n * d + e, n) == (if d > 0 {
            if e >= 0 {
                d
            } else {
                d - 1
            }
        } else if d < 0 {
            if e <= 0 {
                d
            } else {
                d + 1
            }
        } else {
            0
        }),
{
    let x = n * d + e;
    if d > 0 {
        assert(n * d >= n) by (nonlinear_arith)
            requires
                n > 0,
                d >= 1,
        ;
        if e >= 0 {
            assert(x == d * n + e) by (nonlinear_arith)
                requires
                    x == n * d + e,
            ;
            vstd::arithmetic::div_mod::lemma_fundamental_div_mod_converse(x, n, d, e);
        } else {
            assert(x == (d - 1) * n + (n + e)) by (nonlinear_arith)
                requires
                    x == n * d + e,
            ;
            vstd::arithmetic::div_mod::lemma_fundamental_div_mod_converse(x, n, d - 1, n + e);
        }
    } else if d < 0 {
        assert(n * d <= -n) by (nonlinear_arith)
            requires
                n > 0,
                d <= -1,
        ;
        if e <= 0 {
            assert(-x == (-d) * n + (-e)) by (nonlinear_arith)
                requires
                    x == n * d + e,
            ;
            vstd::arithmetic::div_mod::lemma_fundamental_div_mod_converse(-x, n, -d, -e);
        } else {
            assert(-x == (-d - 1) * n + (n - e)) by (nonlinear_arith)
                requires
                    x == n * d + e,
            ;
            vstd::arithmetic::div_mod::lemma_fundamental_div_mod_converse(-x, n, -d - 1, n - e);
        }
    } else {
        assert(n * d == 0) by (nonlinear_arith)
            requires
                d == 0,
        ;
        if e >= 0 {
            vstd::arithmetic::div_mod::lemma_fundamental_div_mod_converse(x, n, 0, e);
        } else {
            vstd::arithmetic::div_mod::lemma_fundamental_div_mod_converse(-x, n, 0, -e);
        }
    }
}

/// Adds `m` to a sum that is held as `count * quotient + remainder`.
fn add_to_sum(quotient: u128, remainder: u128, m: u128, count: u128) -> (parts: (u128, u128))
    requires
        0 < count <= usize::MAX,
        remainder < count,
        count * quotient + remainder + m <= count * u128::MAX,
    ensures
        parts.1 < count,
        count * parts.0 + parts.1 == count * quotient + remainder + m,
{
    let q = m / count;
    let r = m % count;
    let sum = remainder + r;
    let carry: u128 = if sum >= count {
        1
    } else {
        0
    };
    proof {
        vstd::arithmetic::div_mod::lemma_fundamental_div_mod(m as int, count as int);
        assert(count * (quotient + q + carry) + (sum - count * carry) == count * quotient
            + remainder + m) by (nonlinear_arith)
            requires
                m == count * q + r,
                sum == remainder + r,
        ;
        assert(quotient + q + carry <= u128::MAX) by (nonlinear_arith)
            requires
                count > 0,
                sum - count * carry >= 0,
                count * (quotient + q + carry) + (sum - count * carry) <= count * u128::MAX,
        ;
    }
    (quotient + q + carry, if sum >= count {
        sum - count
    } else {
        sum
    })
}

impl<C: Sample<O>, O: Numeric> SampleAggregate<Minimum<O>> for C {
    /// The smallest of the values that the states project to.
    fn sample_aggregate(components: &[&Self]) -> (out: Minimum<O>)
        ensures
            exists|values: Seq<O>| #[trigger]
                sampled_from::<C, O>(components@, values) && Minimum::<O>::is_of(out, values),
    {
        let values = sample_all::<C, O>(components);
        Minimum::of(values.as_slice())
    }
}

impl<C: Sample<O>, O: Numeric> SampleAggregate<Maximum<O>> for C {
    /// The largest of the values that the states project to.
    fn sample_aggregate(components: &[&Self]) -> (out: Maximum<O>)
        ensures
            exists|values: Seq<O>| #[trigger]
                sampled_from::<C, O>(components@, values) && Maximum::<O>::is_of(out, values),
    {
        let values = sample_all::<C, O>(components);
        Maximum::of(values.as_slice())
    }
}

impl<C: Sample<O>, O: Numeric> SampleAggregate<Median<O>> for C {
    /// The median of the values that the states project to.
    fn sample_aggregate(components: &[&Self]) -> (out: Median<O>)
        ensures
            exists|values: Seq<O>| #[trigger]
                sampled_from::<C, O>(components@, values) && Median::<O>::is_of(out, values),
    {
        let values = sample_all::<C, O>(components);
        Median::of(values.as_slice())
    }
}

impl<C: Sample<O>, O: Numeric> SampleAggregate<Mean<O>> for C {
    /// The mean of the values that the states project to.
    fn sample_aggregate(components: &[&Self]) -> (out: Mean<O>)
        ensures
            exists|values: Seq<O>| #[trigger]
                sampled_from::<C, O>(components@, values) && Mean::<O>::is_of(out, values),
    {
        let values = sample_all::<C, O>(components);
        Mean::of(values.as_slice())
    }
}

impl<C: Sample<O>, O: Numeric, const P: u8> SampleAggregate<Percentile<O, P>> for C {
    /// A percentile is defined on a population that is not empty, for a `P` below 100.
    open spec fn defined_on(count: nat) -> bool {
        count > 0 && P < 100
    }

    /// The percentile `P` of the values that the states project to.
    fn sample_aggregate(components: &[&Self]) -> (out: Percentile<O, P>)
        ensures
            exists|values: Seq<O>| #[trigger]
                sampled_from::<C, O>(components@, values) && Percentile::<O, P>::is_of(
                    out,
                    values,
                ),
    {
        let values = sample_all::<C, O>(components);
        Percentile::of(values.as_slice())
    }
}

} // verus!
