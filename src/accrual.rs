use vstd::prelude::*;

verus! {

/// `x` clamped to the largest `i128`: the value of a saturating `+` or `*`
/// on non-negative operands.
pub open spec fn cap(x: int) -> int {
    if x > i128::MAX {
        i128::MAX as int
    } else {
        x
    }
}

/// The smaller of two values.
pub open spec fn min(a: int, b: int) -> int {
    if a <= b {
        a
    } else {
        b
    }
}

/// Sum of a sequence of amounts.
pub open spec fn sum(s: Seq<i128>) -> int
    decreases s.len(),
{
    if s.len() == 0 {
        0
    } else {
        sum(s.drop_last()) + s.last()
    }
}

/// Every entry is strictly positive.
pub open spec fn all_positive(s: Seq<i128>) -> bool {
    forall|i: int| 0 <= i < s.len() ==> s[i] > 0
}

/// Every entry is non-negative.
pub open spec fn all_non_negative(s: Seq<i128>) -> bool {
    forall|i: int| 0 <= i < s.len() ==> s[i] >= 0
}

pub proof fn lemma_sum_non_negative(s: Seq<i128>)
    requires
        all_non_negative(s),
    ensures
        sum(s) >= 0,
    decreases s.len(),
{
    if s.len() > 0 {
        lemma_sum_non_negative(s.drop_last());
    }
}

pub proof fn lemma_sum_ge_entry(s: Seq<i128>, i: int)
    requires
        all_non_negative(s),
        0 <= i < s.len(),
    ensures
        s[i] <= sum(s),
    decreases s.len(),
{
    if i < s.len() - 1 {
        lemma_sum_ge_entry(s.drop_last(), i);
    } else {
        lemma_sum_non_negative(s.drop_last());
    }
}

/// Changing one entry by `d` changes the sum by `d`.
pub proof fn lemma_sum_update(s: Seq<i128>, i: int, v: i128)
    requires
        0 <= i < s.len(),
    ensures
        sum(s.update(i, v)) == sum(s) - s[i] + v,
    decreases s.len(),
{
    if i < s.len() - 1 {
        assert(s.update(i, v).drop_last() =~= s.drop_last().update(i, v));
        lemma_sum_update(s.drop_last(), i, v);
    } else {
        assert(s.update(i, v).drop_last() =~= s.drop_last());
    }
}

/// A sequence of `n` zeros sums to zero.
pub proof fn lemma_sum_zeros(s: Seq<i128>)
    requires
        forall|i: int| 0 <= i < s.len() ==> s[i] == 0,
    ensures
        sum(s) == 0,
    decreases s.len(),
{
    if s.len() > 0 {
        lemma_sum_zeros(s.drop_last());
    }
}

/// If every `a[j]` is at most `e * b[j]`, then `Σ a <= e * Σ b`.
pub proof fn lemma_sum_scaled_bound(a: Seq<i128>, b: Seq<i128>, e: int)
    requires
        a.len() == b.len(),
        e >= 0,
        forall|j: int| 0 <= j < a.len() ==> a[j] <= e * b[j],
    ensures
        sum(a) <= e * sum(b),
    decreases a.len(),
{
    if a.len() > 0 {
        let n = a.len() - 1;
        assert(a[n] <= e * b[n]);
        lemma_sum_scaled_bound(a.drop_last(), b.drop_last(), e);
        let sb = sum(b.drop_last());
        let bl = b.last() as int;
        assert(e * sb + e * bl == e * (sb + bl)) by (nonlinear_arith);
    }
}

/// Saturating addition of two non-negative amounts.
pub fn add_capped(a: i128, b: i128) -> (r: i128)
    requires
        a >= 0,
        b >= 0,
    ensures
        r == cap(a + b),
{
    match a.checked_add(b) {
        Some(v) => v,
        None => i128::MAX,
    }
}

/// Saturating multiplication of two non-negative amounts.
pub fn mul_capped(a: i128, b: i128) -> (r: i128)
    requires
        a >= 0,
        b >= 0,
    ensures
        r == cap(a * b),
{
    proof {
        assert(a * b >= 0) by (nonlinear_arith)
            requires
                a >= 0,
                b >= 0,
        ;
    }
    match a.checked_mul(b) {
        Some(v) => v,
        None => i128::MAX,
    }
}

/// Combined outflow rate of a set of recipients, saturating at the largest
/// `i128`.
pub fn total_outflow_rate(rates: &Vec<i128>) -> (r: i128)
    requires
        all_non_negative(rates@),
    ensures
        r == cap(sum(rates@)),
{
    let mut total: i128 = 0;
    let mut i: usize = 0;
    while i < rates.len()
        invariant
            0 <= i <= rates.len(),
            all_non_negative(rates@),
            total == cap(sum(rates@.subrange(0, i as int))),
        decreases rates.len() - i,
    {
        proof {
            assert(rates@.subrange(0, i + 1).drop_last() =~= rates@.subrange(0, i as int));
            lemma_sum_non_negative(rates@.subrange(0, i as int));
        }
        total = add_capped(total, rates[i]);
        i += 1;
    }
    proof {
        assert(rates@.subrange(0, rates.len() as int) =~= rates@);
    }
    total
}

} // verus!
