use vstd::prelude::*;

verus! {

/// The sum of the values of `s`.
pub open spec fn sum_of(s: Seq<i32>) -> int
    decreases s.len(),
{
    if s.len() == 0 {
        0
    } else {
        sum_of(s.drop_last()) + s.last()
    }
}

/// The sum of the squares of the values of `s`.
pub open spec fn sum_sq(s: Seq<i32>) -> int
    decreases s.len(),
{
    if s.len() == 0 {
        0
    } else {
        sum_sq(s.drop_last()) + s.last() * s.last()
    }
}

/// The sum of `(n * x - t)^2` over the values `x` of `s`.
///
/// With `n` the length of `s` and `t` its sum, each term is `n^2` times the
/// squared deviation of `x` from the mean, so the population variance of `s`
/// is `sum_dev_sq(s, n, t) / n^3`.
pub open spec fn sum_dev_sq(s: Seq<i32>, n: int, t: int) -> int
    decreases s.len(),
{
    if s.len() == 0 {
        0
    } else {
        let d = n * s.last() - t;
        sum_dev_sq(s.drop_last(), n, t) + d * d
    }
}

/// `n^3` times the population variance of `s`, where `n` is its length.
pub open spec fn dispersion(s: Seq<i32>) -> int {
    sum_dev_sq(s, s.len() as int, sum_of(s))
}

/// `n^2` times the population variance of `s`, in the form that the window
/// maintains: `n * sum_sq(s) - sum_of(s)^2`.
pub open spec fn spread(s: Seq<i32>) -> int {
    s.len() * sum_sq(s) - sum_of(s) * sum_of(s)
}

/// Peeling off the first value of a sequence.
pub proof fn lemma_sums_drop_first(s: Seq<i32>)
    requires
        s.len() > 0,
    ensures
        sum_of(s) == s[0] + sum_of(s.drop_first()),
        sum_sq(s) == s[0] * s[0] + sum_sq(s.drop_first()),
    decreases s.len(),
{
    if s.len() > 1 {
        let t = s.drop_last();
        let u = s.drop_first();
        lemma_sums_drop_first(t);
        assert(t.drop_first() =~= u.drop_last());
        assert(u.last() == s.last());
        assert(t[0] == s[0]);
        assert(sum_of(u) == sum_of(u.drop_last()) + u.last());
        assert(sum_sq(u) == sum_sq(u.drop_last()) + u.last() * u.last());
    } else {
        assert(s.drop_first().len() == 0);
        assert(s.drop_last().len() == 0);
        assert(s.last() == s[0]);
        assert(sum_of(s.drop_first()) == 0);
        assert(sum_of(s.drop_last()) == 0);
        assert(sum_sq(s.drop_first()) == 0);
        assert(sum_sq(s.drop_last()) == 0);
    }
}

/// Bounds that follow from the values being `i32`.
pub proof fn lemma_sums_bounded(s: Seq<i32>)
    ensures
        -s.len() * 0x8000_0000 <= sum_of(s) <= s.len() * 0x8000_0000,
        0 <= sum_sq(s) <= s.len() * 0x4000_0000_0000_0000,
    decreases s.len(),
{
    if s.len() > 0 {
        let x = s.last();
        lemma_sums_bounded(s.drop_last());
        assert(0 <= x * x <= 0x4000_0000_0000_0000) by (nonlinear_arith)
            requires
                -0x8000_0000 <= x < 0x8000_0000,
        ;
    }
}

/// Expanding the squares: `sum (n x - t)^2 = n^2 sum x^2 - 2 n t sum x + len t^2`.
pub proof fn lemma_sum_dev_sq_expand(s: Seq<i32>, n: int, t: int)
    ensures
        sum_dev_sq(s, n, t) == n * n * sum_sq(s) - 2 * n * t * sum_of(s) + s.len() * t * t,
    decreases s.len(),
{
    if s.len() > 0 {
        let p = s.drop_last();
        let x = s.last() as int;
        lemma_sum_dev_sq_expand(p, n, t);
        let (a, b, c, k) = (sum_sq(p), sum_of(p), sum_dev_sq(p, n, t), p.len() as int);
        assert((n * n * a - 2 * n * t * b + k * t * t) + (n * x - t) * (n * x - t) == n * n * (a
            + x * x) - 2 * n * t * (b + x) + (k + 1) * t * t) by (nonlinear_arith);
    }
}

/// A sum of squares is never negative.
pub proof fn lemma_sum_dev_sq_nonneg(s: Seq<i32>, n: int, t: int)
    ensures
        sum_dev_sq(s, n, t) >= 0,
    decreases s.len(),
{
    if s.len() > 0 {
        let d = n * s.last() - t;
        lemma_sum_dev_sq_nonneg(s.drop_last(), n, t);
        assert(d * d >= 0) by (nonlinear_arith);
    }
}

/// The maintained form and the defining form of the variance agree:
/// `spread(s) * n == dispersion(s)`, and both are never negative.
pub proof fn lemma_spread_is_dispersion(s: Seq<i32>)
    ensures
        spread(s) * s.len() == dispersion(s),
        dispersion(s) >= 0,
        s.len() > 0 ==> spread(s) >= 0,
        s.len() > 0 ==> (spread(s) == 0 <==> dispersion(s) == 0),
{
    let n = s.len() as int;
    let t = sum_of(s);
    let q = sum_sq(s);
    lemma_sum_dev_sq_expand(s, n, t);
    lemma_sum_dev_sq_nonneg(s, n, t);
    let v = spread(s);
    assert(n * n * q - 2 * n * t * t + n * t * t == v * n) by (nonlinear_arith)
        requires
            v == n * q - t * t,
    ;
    if n > 0 {
        assert(v >= 0 && (v == 0 <==> n * v == 0)) by (nonlinear_arith)
            requires
                n > 0,
                n * v >= 0,
        ;
    }
}

/// A window whose values are all equal has no spread at all: its variance,
/// standard deviation and z-score are then exactly zero.
pub proof fn lemma_constant_has_no_dispersion(s: Seq<i32>)
    requires
        forall|i: int| 0 <= i < s.len() ==> #[trigger] s[i] == s[0],
    ensures
        dispersion(s) == 0,
        spread(s) == 0,
{
    if s.len() > 0 {
        let c = s[0] as int;
        lemma_constant_sums(s, c);
        let n = s.len() as int;
        assert(n * (n * (c * c)) - (n * c) * (n * c) == 0) by (nonlinear_arith);
        assert(spread(s) == 0);
        lemma_spread_is_dispersion(s);
        assert(n * 0 == 0);
    }
}

proof fn lemma_constant_sums(s: Seq<i32>, c: int)
    requires
        forall|i: int| 0 <= i < s.len() ==> s[i] == c,
    ensures
        sum_of(s) == s.len() * c,
        sum_sq(s) == s.len() * (c * c),
    decreases s.len(),
{
    if s.len() > 0 {
        let p = s.drop_last();
        assert forall|i: int| 0 <= i < p.len() implies p[i] == c by {
            assert(p[i] == s[i]);
        }
        lemma_constant_sums(p, c);
        assert(s.last() == c);
        assert(p.len() * c + c == s.len() * c && p.len() * (c * c) + c * c == s.len() * (c * c))
            by (nonlinear_arith)
            requires
                s.len() == p.len() + 1,
        ;
    }
}

/// How `n * sum_sq - sum^2` changes when the value `y` is replaced by `x`:
/// by `(x - y) * (n x - s1 + n y - s0)`, where `s0` and `s1` are the sums
/// before and after, that is `n` times the means before and after.
pub proof fn lemma_replace_one(n: int, x: int, y: int, s0: int, q0: int)
    ensures
        ({
            let s1 = s0 - y + x;
            n * (q0 - y * y + x * x) - s1 * s1 == (n * q0 - s0 * s0) + (x - y) * (n * x - s1 + n * y
                - s0)
        }),
{
    let d = x - y;
    let s1 = s0 + d;
    assert(n * (q0 - y * y + x * x) == n * q0 + n * (x * x - y * y)) by (nonlinear_arith);
    assert(x * x - y * y == d * (x + y)) by (nonlinear_arith)
        requires
            d == x - y,
    ;
    assert(n * (d * (x + y)) == d * (n * x + n * y)) by (nonlinear_arith);
    assert(s1 * s1 == s0 * s0 + 2 * (s0 * d) + d * d) by (nonlinear_arith)
        requires
            s1 == s0 + d,
    ;
    assert(d * ((n * x + n * y) - 2 * s0 - d) == d * (n * x + n * y) - 2 * (s0 * d) - d * d)
        by (nonlinear_arith);
    assert(n * x - s1 + n * y - s0 == (n * x + n * y) - 2 * s0 - d);
}

} // verus!
