//! Probability model: a `Distribution` maps integer outcome values to
//! relative weights.  Distributions are built compositionally from certain
//! values via weighted binary splits, and merged by summing the weights of
//! equal outcome values.

use vstd::prelude::*;
use smallvec::SmallVec;

verus! {

/// Backing store for a distribution's entries.  Verus cannot read smallvec's
/// types, so the small-vector is held opaquely and reached only through the
/// trusted accessors below, which speak of its contents via `dist_entries`.
#[verifier::external_body]
pub struct WeightVec {
    inner: SmallVec<[(u64, i32); 4]>,
}

/// The entries of the backing small-vector, in storage order, as
/// (weight, outcome value) pairs.
pub uninterp spec fn dist_entries(v: WeightVec) -> Seq<(u64, i32)>;

/// Relies on smallvec::SmallVec::new: the new vector holds no elements.
#[verifier::external_body]
fn sv_new() -> (r: WeightVec)
    ensures
        dist_entries(r) == Seq::<(u64, i32)>::empty(),
{
    WeightVec { inner: SmallVec::new() }
}

/// Relies on smallvec::SmallVec::len: the number of stored elements.
#[verifier::external_body]
fn sv_len(v: &WeightVec) -> (r: usize)
    ensures
        r == dist_entries(*v).len(),
{
    v.inner.len()
}

/// Relies on smallvec's Index impl: reading position i yields element i.
#[verifier::external_body]
fn sv_get(v: &WeightVec, i: usize) -> (r: (u64, i32))
    requires
        i < dist_entries(*v).len(),
    ensures
        r == dist_entries(*v)[i as int],
{
    v.inner[i]
}

/// Relies on smallvec::SmallVec::push: appends one element at the end.
#[verifier::external_body]
fn sv_push(v: &mut WeightVec, pair: (u64, i32))
    ensures
        dist_entries(*final(v)) == dist_entries(*old(v)).push(pair),
{
    v.inner.push(pair)
}

/// Relies on smallvec's IndexMut impl: writing position i replaces element i
/// and leaves the others unchanged.
#[verifier::external_body]
fn sv_set(v: &mut WeightVec, i: usize, pair: (u64, i32))
    requires
        i < dist_entries(*old(v)).len(),
    ensures
        dist_entries(*final(v)) == dist_entries(*old(v)).update(i as int, pair),
{
    v.inner[i] = pair
}

/// Total weight attributed to outcome `v` by the entry list `s`.
pub open spec fn weight_of(s: Seq<(u64, i32)>, v: i32) -> int
    decreases s.len(),
{
    if s.len() == 0 {
        0
    } else {
        weight_of(s.drop_last(), v) + if s.last().1 == v {
            s.last().0 as int
        } else {
            0
        }
    }
}

/// Sum of all weights in the entry list `s`.
pub open spec fn total_weight(s: Seq<(u64, i32)>) -> int
    decreases s.len(),
{
    if s.len() == 0 {
        0
    } else {
        total_weight(s.drop_last()) + s.last().0
    }
}

/// Outcome values occur at most once in the entry list.
pub open spec fn distinct_values(s: Seq<(u64, i32)>) -> bool {
    forall|i: int, j: int| 0 <= i < j < s.len() ==> s[i].1 != s[j].1
}

pub proof fn lemma_weight_nonneg(s: Seq<(u64, i32)>, v: i32)
    ensures
        0 <= weight_of(s, v),
    decreases s.len(),
{
    if s.len() > 0 {
        lemma_weight_nonneg(s.drop_last(), v);
    }
}

pub proof fn lemma_total_nonneg(s: Seq<(u64, i32)>)
    ensures
        0 <= total_weight(s),
    decreases s.len(),
{
    if s.len() > 0 {
        lemma_total_nonneg(s.drop_last());
    }
}

pub proof fn lemma_weight_le_total(s: Seq<(u64, i32)>, v: i32)
    ensures
        weight_of(s, v) <= total_weight(s),
    decreases s.len(),
{
    if s.len() > 0 {
        lemma_weight_le_total(s.drop_last(), v);
    }
}

pub proof fn lemma_entry_le_total(s: Seq<(u64, i32)>, i: int)
    requires
        0 <= i < s.len(),
    ensures
        s[i].0 <= total_weight(s),
    decreases s.len(),
{
    if i == s.len() - 1 {
        lemma_total_nonneg(s.drop_last());
    } else {
        lemma_entry_le_total(s.drop_last(), i);
    }
}

/// Appending an entry adds its weight to its own outcome and to the total,
/// and touches no other outcome.
pub proof fn lemma_weight_push(s: Seq<(u64, i32)>, p: (u64, i32), v: i32)
    ensures
        weight_of(s.push(p), v) == weight_of(s, v) + if p.1 == v {
            p.0 as int
        } else {
            0
        },
        total_weight(s.push(p)) == total_weight(s) + p.0,
{
    assert(s.push(p).drop_last() =~= s);
    assert(s.push(p).last() == p);
}

/// Raising the weight of entry `j` by `w` adds `w` to its outcome's weight
/// and to the total, and touches no other outcome.
pub proof fn lemma_weight_update(s: Seq<(u64, i32)>, j: int, w: u64, v: i32)
    requires
        0 <= j < s.len(),
        s[j].0 + w <= u64::MAX,
    ensures
        weight_of(s.update(j, (((s[j].0 + w) as u64), s[j].1)), v) == weight_of(s, v) + if s[j].1
            == v {
            w as int
        } else {
            0
        },
        total_weight(s.update(j, (((s[j].0 + w) as u64), s[j].1))) == total_weight(s) + w,
    decreases s.len(),
{
    let t = s.update(j, (((s[j].0 + w) as u64), s[j].1));
    if j == s.len() - 1 {
        assert(t.drop_last() =~= s.drop_last());
        assert(t.last() == (((s[j].0 + w) as u64), s[j].1));
    } else {
        assert(t.drop_last() =~= s.drop_last().update(j, (((s[j].0 + w) as u64), s[j].1)));
        assert(t.last() == s.last());
        lemma_weight_update(s.drop_last(), j, w, v);
    }
}

/// In a distinct entry list, the weight of entry `j`'s outcome is exactly
/// that entry's stored weight.
pub proof fn lemma_distinct_weight(s: Seq<(u64, i32)>, j: int)
    requires
        distinct_values(s),
        0 <= j < s.len(),
    ensures
        weight_of(s, s[j].1) == s[j].0,
    decreases s.len(),
{
    if j == s.len() - 1 {
        lemma_weight_absent(s.drop_last(), s[j].1);
    } else {
        assert(distinct_values(s.drop_last()));
        lemma_distinct_weight(s.drop_last(), j);
    }
}

/// An outcome value that appears in no entry has weight zero.
pub proof fn lemma_weight_absent(s: Seq<(u64, i32)>, v: i32)
    requires
        forall|i: int| 0 <= i < s.len() ==> s[i].1 != v,
    ensures
        weight_of(s, v) == 0,
    decreases s.len(),
{
    if s.len() > 0 {
        lemma_weight_absent(s.drop_last(), v);
    }
}

/// Scaling every weight by the same factor scales every outcome's weight
/// and the total by that factor.
pub proof fn lemma_weight_scale(s: Seq<(u64, i32)>, t: Seq<(u64, i32)>, factor: u64, v: i32)
    requires
        t.len() == s.len(),
        forall|k: int| 0 <= k < s.len() ==> t[k].0 == s[k].0 * factor && t[k].1 == s[k].1,
    ensures
        weight_of(t, v) == factor * weight_of(s, v),
        total_weight(t) == factor * total_weight(s),
    decreases s.len(),
{
    if s.len() > 0 {
        lemma_weight_scale(s.drop_last(), t.drop_last(), factor, v);
        assert(t.last().0 == s.last().0 * factor && t.last().1 == s.last().1);
        assert(factor * (weight_of(s.drop_last(), v) + if s.last().1 == v {
            s.last().0 as int
        } else {
            0
        }) == factor * weight_of(s.drop_last(), v) + factor * (if s.last().1 == v {
            s.last().0 as int
        } else {
            0
        })) by (nonlinear_arith);
        assert(factor * (total_weight(s.drop_last()) + s.last().0) == factor * total_weight(
            s.drop_last(),
        ) + factor * s.last().0) by (nonlinear_arith);
    } else {
        assert(t.len() == 0);
    }
}

pub proof fn lemma_total_take_succ(s: Seq<(u64, i32)>, i: int)
    requires
        0 <= i < s.len(),
    ensures
        total_weight(s.take(i + 1)) == total_weight(s.take(i)) + s[i].0,
        forall|v: i32|
            weight_of(s.take(i + 1), v) == weight_of(s.take(i), v) + if s[i].1 == v {
                s[i].0 as int
            } else {
                0
            },
{
    assert(s.take(i + 1).drop_last() =~= s.take(i));
    assert(s.take(i + 1).last() == s[i]);
}

pub proof fn lemma_total_take_le(s: Seq<(u64, i32)>, i: int)
    requires
        0 <= i <= s.len(),
    ensures
        total_weight(s.take(i)) <= total_weight(s),
    decreases s.len() - i,
{
    if i == s.len() {
        assert(s.take(i) =~= s);
    } else {
        lemma_total_take_succ(s, i);
        lemma_total_take_le(s, i + 1);
    }
}

/// A distribution over integer outcomes: a list of (relative weight, value)
/// pairs with pairwise-distinct values.  Weights are relative magnitudes and
/// need not sum to any particular total.
pub struct Distribution(pub WeightVec);

impl Distribution {
    /// The stored (weight, value) entries.
    pub open spec fn entries(&self) -> Seq<(u64, i32)> {
        dist_entries(self.0)
    }

    /// Outcome values are pairwise distinct.
    pub open spec fn wf(&self) -> bool {
        distinct_values(self.entries())
    }

    /// Weight of outcome `v`.
    pub open spec fn spec_weight(&self, v: i32) -> int {
        weight_of(self.entries(), v)
    }

    /// Sum of all weights.
    pub open spec fn spec_total(&self) -> int {
        total_weight(self.entries())
    }

    /// The empty distribution: no outcomes at all.
    pub fn new() -> (r: Distribution)
        ensures
            r.entries() == Seq::<(u64, i32)>::empty(),
            r.wf(),
            r.spec_total() == 0,
    {
        let r = Distribution(sv_new());
        proof {
            assert(r.entries().len() == 0);
        }
        r
    }

    /// The certain distribution: `value` with weight 1.
    pub fn from_value(value: i32) -> (r: Distribution)
        ensures
            r.entries() =~= seq![(1u64, value)],
            r.wf(),
            r.spec_total() == 1,
            forall|v: i32| r.spec_weight(v) == if v == value { 1int } else { 0 },
    {
        let mut inner = sv_new();
        sv_push(&mut inner, (1u64, value));
        let r = Distribution(inner);
        proof {
            assert(r.entries() =~= seq![(1u64, value)]);
            assert(r.entries() == Seq::<(u64, i32)>::empty().push((1u64, value)));
            lemma_weight_push(Seq::<(u64, i32)>::empty(), (1u64, value), 0i32);
            assert forall|v: i32| r.spec_weight(v) == if v == value { 1int } else { 0 } by {
                lemma_weight_push(Seq::<(u64, i32)>::empty(), (1u64, value), v);
            }
        }
        r
    }

    /// Number of distinct outcomes.
    pub fn outcome_count(&self) -> (r: usize)
        ensures
            r == self.entries().len(),
    {
        sv_len(&self.0)
    }

    /// The entry at position `i`, as a (weight, value) pair.
    pub fn entry_at(&self, i: usize) -> (r: (u64, i32))
        requires
            i < self.entries().len(),
        ensures
            r == self.entries()[i as int],
    {
        sv_get(&self.0, i)
    }

    /// The weight of outcome `value` (zero when the value does not occur).
    pub fn weight_for(&self, value: i32) -> (r: u64)
        requires
            self.wf(),
        ensures
            r as int == self.spec_weight(value),
    {
        let n = sv_len(&self.0);
        let mut i: usize = 0;
        while i < n
            invariant
                n == self.entries().len(),
                0 <= i <= n,
                self.wf(),
                forall|k: int| 0 <= k < i ==> self.entries()[k].1 != value,
            decreases n - i,
        {
            let pair = sv_get(&self.0, i);
            if pair.1 == value {
                proof {
                    lemma_distinct_weight(self.entries(), i as int);
                }
                return pair.0;
            }
            i = i + 1;
        }
        proof {
            lemma_weight_absent(self.entries(), value);
        }
        0
    }

    /// Scale every weight by `factor`.
    pub fn mul(self, factor: u64) -> (r: Distribution)
        requires
            self.spec_total() * factor <= u64::MAX,
        ensures
            r.entries().len() == self.entries().len(),
            forall|k: int|
                0 <= k < self.entries().len() ==> r.entries()[k].0 == self.entries()[k].0 * factor
                    && r.entries()[k].1 == self.entries()[k].1,
            forall|v: i32| r.spec_weight(v) == factor * self.spec_weight(v),
            r.spec_total() == factor * self.spec_total(),
            self.wf() ==> r.wf(),
    {
        let mut inner = self.0;
        let ghost orig = dist_entries(inner);
        let n = sv_len(&inner);
        let mut i: usize = 0;
        while i < n
            invariant
                n == orig.len(),
                0 <= i <= n,
                dist_entries(inner).len() == orig.len(),
                forall|k: int| i <= k < n ==> dist_entries(inner)[k] == orig[k],
                forall|k: int|
                    0 <= k < i ==> dist_entries(inner)[k].0 == orig[k].0 * factor && dist_entries(
                        inner,
                    )[k].1 == orig[k].1,
                total_weight(orig) * factor <= u64::MAX,
            decreases n - i,
        {
            let pair = sv_get(&inner, i);
            proof {
                lemma_entry_le_total(orig, i as int);
                lemma_total_nonneg(orig);
                assert(orig[i as int].0 * factor <= total_weight(orig) * factor) by (nonlinear_arith)
                    requires
                        orig[i as int].0 <= total_weight(orig),
                        0 <= orig[i as int].0,
                        0 <= factor,
                ;
            }
            let scaled: u64 = pair.0 * factor;
            sv_set(&mut inner, i, (scaled, pair.1));
            i = i + 1;
        }
        let r = Distribution(inner);
        proof {
            assert forall|v: i32| r.spec_weight(v) == factor * weight_of(orig, v) by {
                lemma_weight_scale(orig, r.entries(), factor, v);
            }
            lemma_weight_scale(orig, r.entries(), factor, 0i32);
            if distinct_values(orig) {
                assert forall|a: int, b: int|
                    0 <= a < b < r.entries().len() implies r.entries()[a].1 != r.entries()[b].1 by {
                    assert(r.entries()[a].1 == orig[a].1);
                    assert(r.entries()[b].1 == orig[b].1);
                }
            }
        }
        r
    }

    /// Add weight `w` to outcome `value`, appending a new entry when the
    /// value is not yet present.
    pub(crate) fn merge_entry(&mut self, w: u64, value: i32)
        requires
            old(self).wf(),
            old(self).spec_total() + w <= u64::MAX,
        ensures
            final(self).wf(),
            forall|v: i32|
                final(self).spec_weight(v) == old(self).spec_weight(v) + if v == value {
                    w as int
                } else {
                    0
                },
            final(self).spec_total() == old(self).spec_total() + w,
            final(self).entries().len() == old(self).entries().len() + if (exists|k: int|
                0 <= k < old(self).entries().len() && (#[trigger] old(self).entries()[k]).1
                    == value) {
                0int
            } else {
                1int
            },
    {
        let ghost pre = self.entries();
        let m = sv_len(&self.0);
        let mut j: usize = 0;
        let mut found = false;
        while !found && j < m
            invariant
                m == pre.len(),
                pre == self.entries(),
                0 <= j <= m,
                !found ==> forall|k: int| 0 <= k < j ==> pre[k].1 != value,
                found ==> j < m && pre[j as int].1 == value,
            decreases m - j + if found { 0int } else { 1int },
        {
            let pair = sv_get(&self.0, j);
            if pair.1 == value {
                found = true;
            } else {
                j = j + 1;
            }
        }
        if found {
            let pair = sv_get(&self.0, j);
            proof {
                lemma_distinct_weight(pre, j as int);
                lemma_weight_le_total(pre, value);
                lemma_total_nonneg(pre);
                assert((pre[j as int]).1 == value);
            }
            let new_w: u64 = pair.0 + w;
            sv_set(&mut self.0, j, (new_w, value));
            proof {
                assert(self.entries() == pre.update(j as int, (new_w, value)));
                assert((new_w, value) == (((pre[j as int].0 + w) as u64), pre[j as int].1));
                assert forall|v: i32|
                    self.spec_weight(v) == weight_of(pre, v) + if v == value {
                        w as int
                    } else {
                        0
                    } by {
                    lemma_weight_update(pre, j as int, w, v);
                }
                lemma_weight_update(pre, j as int, w, 0i32);
                assert forall|a: int, b: int|
                    0 <= a < b < self.entries().len() implies self.entries()[a].1
                    != self.entries()[b].1 by {
                    assert(self.entries()[a].1 == pre[a].1);
                    assert(self.entries()[b].1 == pre[b].1);
                }
            }
        } else {
            sv_push(&mut self.0, (w, value));
            proof {
                assert(self.entries() == pre.push((w, value)));
                assert forall|v: i32|
                    self.spec_weight(v) == weight_of(pre, v) + if v == value {
                        w as int
                    } else {
                        0
                    } by {
                    lemma_weight_push(pre, (w, value), v);
                }
                lemma_weight_push(pre, (w, value), 0i32);
                assert forall|a: int, b: int|
                    0 <= a < b < self.entries().len() implies self.entries()[a].1
                    != self.entries()[b].1 by {
                    if b < pre.len() {
                        assert(self.entries()[a].1 == pre[a].1);
                        assert(self.entries()[b].1 == pre[b].1);
                    } else {
                        assert(self.entries()[b].1 == value);
                        assert(self.entries()[a].1 == pre[a].1);
                        assert(pre[a].1 != value);
                    }
                }
            }
        }
    }

    /// Merge `other` into `self`, summing the weights of equal outcome
    /// values and appending entries for new values.
    pub fn add_assign(&mut self, other: Distribution)
        requires
            old(self).wf(),
            old(self).spec_total() + other.spec_total() <= u64::MAX,
        ensures
            final(self).wf(),
            forall|v: i32|
                final(self).spec_weight(v) == old(self).spec_weight(v) + other.spec_weight(v),
            final(self).spec_total() == old(self).spec_total() + other.spec_total(),
    {
        let ghost orig = old(self).entries();
        let ghost oth = other.entries();
        let n = sv_len(&other.0);
        let mut i: usize = 0;
        while i < n
            invariant
                n == oth.len(),
                0 <= i <= n,
                oth == dist_entries(other.0),
                self.wf(),
                forall|v: i32|
                    #![trigger weight_of(oth.take(i as int), v)]
                    self.spec_weight(v) == weight_of(orig, v) + weight_of(oth.take(i as int), v),
                self.spec_total() == total_weight(orig) + total_weight(oth.take(i as int)),
                total_weight(orig) + total_weight(oth) <= u64::MAX,
            decreases n - i,
        {
            let (w, value) = sv_get(&other.0, i);
            proof {
                lemma_total_take_succ(oth, i as int);
                lemma_total_take_le(oth, i as int + 1);
            }
            let ghost mid = self.entries();
            self.merge_entry(w, value);
            proof {
                assert forall|v: i32|
                    #![trigger weight_of(oth.take(i as int + 1), v)]
                    self.spec_weight(v) == weight_of(orig, v) + weight_of(
                        oth.take(i as int + 1),
                        v,
                    ) by {
                    lemma_total_take_succ(oth, i as int);
                    assert(weight_of(oth.take(i as int), v) + 0 == weight_of(
                        oth.take(i as int),
                        v,
                    ));
                    assert(weight_of(mid, v) == weight_of(orig, v) + weight_of(
                        oth.take(i as int),
                        v,
                    ));
                }
            }
            i = i + 1;
        }
        proof {
            assert(oth.take(n as int) =~= oth);
            assert forall|v: i32| self.spec_weight(v) == weight_of(orig, v) + weight_of(oth, v) by {
                assert(weight_of(oth.take(n as int), v) == weight_of(oth, v));
            }
        }
    }

    /// Merge two distributions, summing the weights of equal outcome values.
    pub fn add(self, other: Distribution) -> (r: Distribution)
        requires
            self.wf(),
            self.spec_total() + other.spec_total() <= u64::MAX,
        ensures
            r.wf(),
            forall|v: i32| r.spec_weight(v) == self.spec_weight(v) + other.spec_weight(v),
            r.spec_total() == self.spec_total() + other.spec_total(),
    {
        let mut s = self;
        s.add_assign(other);
        s
    }

    /// Weighted binary split: scale `then_value` by `numer` and `else_value`
    /// by `denom - numer`, then merge.  The pair `numer / denom` plays the
    /// role of the branch probability; weights are relative, so both sides
    /// are scaled by integers rather than divided.
    pub fn split(numer: u64, denom: u64, then_value: Distribution, else_value: Distribution) -> (r:
        Distribution)
        requires
            0 < denom,
            numer <= denom,
            then_value.wf(),
            else_value.wf(),
            numer * then_value.spec_total() + (denom - numer) * else_value.spec_total()
                <= u64::MAX,
        ensures
            r.wf(),
            forall|v: i32|
                r.spec_weight(v) == numer * then_value.spec_weight(v) + (denom - numer)
                    * else_value.spec_weight(v),
            r.spec_total() == numer * then_value.spec_total() + (denom - numer)
                * else_value.spec_total(),
    {
        proof {
            lemma_total_nonneg(then_value.entries());
            lemma_total_nonneg(else_value.entries());
            assert(numer * then_value.spec_total() >= 0) by (nonlinear_arith)
                requires
                    0 <= numer,
                    0 <= then_value.spec_total(),
            ;
            assert((denom - numer) * else_value.spec_total() >= 0) by (nonlinear_arith)
                requires
                    numer <= denom,
                    0 <= else_value.spec_total(),
            ;
            assert(then_value.spec_total() * numer == numer * then_value.spec_total())
                by (nonlinear_arith);
            assert(else_value.spec_total() * (denom - numer) == (denom - numer)
                * else_value.spec_total()) by (nonlinear_arith);
        }
        let scaled_then = then_value.mul(numer);
        let scaled_else = else_value.mul(denom - numer);
        let r = scaled_then.add(scaled_else);
        proof {
            assert forall|v: i32|
                r.spec_weight(v) == numer * then_value.spec_weight(v) + (denom - numer)
                    * else_value.spec_weight(v) by {
                assert(scaled_then.spec_weight(v) == numer * then_value.spec_weight(v));
                assert(scaled_else.spec_weight(v) == (denom - numer) * else_value.spec_weight(v));
            }
        }
        r
    }
}

} // verus!
