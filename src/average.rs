use vstd::prelude::*;

verus! {

/// The sum of all values in `s`.
pub open spec fn sum_of(s: Seq<usize>) -> int
    decreases s.len(),
{
    if s.len() == 0 {
        0
    } else {
        sum_of(s.drop_last()) + s.last()
    }
}

/// The arithmetic mean of `s`, rounded down; zero for an empty sequence.
pub open spec fn mean_of(s: Seq<usize>) -> int {
    if s.len() == 0 {
        0
    } else {
        sum_of(s) / (s.len() as int)
    }
}

/// `v` is one of the values of `s`.
pub open spec fn holds_value(s: Seq<usize>, v: usize) -> bool {
    exists|i: int| 0 <= i < s.len() && s[i] == v
}

/// A sum is never more than the count times a bound on every value.
pub proof fn lemma_sum_bounded(s: Seq<usize>, bound: int)
    requires
        forall|i: int| 0 <= i < s.len() ==> s[i] <= bound,
    ensures
        sum_of(s) <= s.len() * bound,
        0 <= sum_of(s),
    decreases s.len(),
{
    if s.len() > 0 {
        let t = s.drop_last();
        assert forall|i: int| 0 <= i < t.len() implies t[i] <= bound by {
            assert(t[i] == s[i]);
        }
        lemma_sum_bounded(t, bound);
        assert(sum_of(s) <= s.len() * bound) by (nonlinear_arith)
            requires
                sum_of(s) == sum_of(t) + s.last(),
                sum_of(t) <= t.len() * bound,
                s.last() <= bound,
                t.len() + 1 == s.len(),
        ;
    }
}

/// Some value of a non-empty sequence is at least every value of it.
pub proof fn lemma_largest_exists(s: Seq<usize>) -> (k: int)
    requires
        s.len() > 0,
    ensures
        0 <= k < s.len(),
        forall|i: int| 0 <= i < s.len() ==> s[i] <= s[k],
    decreases s.len(),
{
    if s.len() == 1 {
        0
    } else {
        let t = s.drop_last();
        let j = lemma_largest_exists(t);
        assert forall|i: int| 0 <= i < t.len() implies t[i] == s[i] by {}
        if s.last() > s[j] {
            (s.len() - 1) as int
        } else {
            j
        }
    }
}

/// The mean of a non-empty sequence is at most one of its values.
pub proof fn lemma_mean_at_most_some_value(s: Seq<usize>)
    requires
        s.len() > 0,
    ensures
        exists|k: int| 0 <= k < s.len() && mean_of(s) <= s[k],
        0 <= mean_of(s),
{
    let k = lemma_largest_exists(s);
    lemma_sum_bounded(s, s[k] as int);
    let n = s.len() as int;
    let m = s[k] as int;
    assert(sum_of(s) / n <= m && 0 <= sum_of(s) / n) by (nonlinear_arith)
        requires
            sum_of(s) <= n * m,
            0 <= sum_of(s),
            n > 0,
    ;
}

/// The arithmetic mean of `values`, rounded down; zero when there are none.
pub fn mean_length(values: &Vec<usize>) -> (r: usize)
    ensures
        r == mean_of(values@),
{
    let n = values.len();
    if n == 0 {
        return 0;
    }
    let mut total: u128 = 0;
    let mut i: usize = 0;
    while i < n
        invariant
            n == values@.len(),
            0 <= i <= n,
            total == sum_of(values@.take(i as int)),
            total <= i * (usize::MAX as int),
        decreases n - i,
    {
        let v = values[i];
        assert(values@.take(i as int + 1).drop_last() =~= values@.take(i as int));
        assert(total + v <= (i + 1) * (usize::MAX as int)) by (nonlinear_arith)
            requires
                total <= i * (usize::MAX as int),
                v <= usize::MAX,
        ;
        assert((i + 1) * (usize::MAX as int) <= u128::MAX) by (nonlinear_arith)
            requires
                i < n,
                n <= usize::MAX,
                usize::MAX <= u64::MAX,
        ;
        total = total + v as u128;
        i = i + 1;
    }
    assert(values@.take(n as int) =~= values@);
    proof {
        lemma_mean_at_most_some_value(values@);
    }
    (total / (n as u128)) as usize
}

} // verus!
