use vstd::prelude::*;

use crate::stats::{dispersion, lemma_replace_one, lemma_spread_is_dispersion, lemma_sums_drop_first, lemma_sums_bounded, spread, sum_of, sum_sq};
use crate::window::slide;

verus! {

/// The largest window size: every aggregate then fits in an `i128`.
pub const MAX_WINDOW: usize = 0xFFFF_FFFF;

/// An exact fraction `num / den`.
#[derive(Clone, Copy, Debug, PartialEq, Eq, Structural)]
pub struct Ratio {
    pub num: i128,
    pub den: i128,
}

/// An exact real of the form `coef * sqrt(radicand) / den`.
#[derive(Clone, Copy, Debug, PartialEq, Eq, Structural)]
pub struct Surd {
    pub coef: i128,
    pub radicand: i128,
    pub den: i128,
}

/// The position in the buffer of the value `k` places after the oldest,
/// when the newest sits at `offset`: `(offset + 1 + k) mod n`.
pub open spec fn slot(offset: int, k: int, n: int) -> int {
    if offset + 1 + k < n {
        offset + 1 + k
    } else {
        offset + 1 + k - n
    }
}

/// A ring buffer of the `N` most recent values, with their sum and variance
/// kept up to date on every insertion.
///
/// All operations but construction from a full window take constant time.
/// Index 0 of the history is the newest value, index `N - 1` the oldest.
#[derive(Clone, Copy, Debug)]
pub struct Series<const N: usize> {
    buf: [i32; N],
    /// The slot of the newest value.
    offset: usize,
    /// The window size, as the arithmetic type.
    n: i128,
    /// The sum of the window; it is also `N` times the mean.
    sum: i128,
    /// `N` times the sum of squares minus the square of the sum, that is
    /// `N^2` times the population variance.
    spread: i128,
}

impl<const N: usize> View for Series<N> {
    type V = Seq<i32>;

    /// The window from the oldest value to the newest.
    closed spec fn view(&self) -> Seq<i32> {
        Seq::new(N as nat, |k: int| self.buf@[slot(self.offset as int, k, N as int)])
    }
}

impl<const N: usize> Series<N> {
    /// The representation invariant.
    pub closed spec fn wf(&self) -> bool {
        &&& 0 < N <= MAX_WINDOW
        &&& self.offset < N
        &&& self.n == N
        &&& self.sum == sum_of(self@)
        &&& self.spread == spread(self@)
    }

    /// A well-formed window holds exactly `N` values, and `N` is a valid size.
    pub proof fn lemma_view_len(&self)
        requires
            self.wf(),
        ensures
            self@.len() == N,
            0 < N <= MAX_WINDOW,
    {
    }

    /// Bounds on the aggregates of a window of `N` values.
    proof fn lemma_aggregates_bounded(w: Seq<i32>)
        requires
            0 < N <= MAX_WINDOW,
            w.len() == N,
        ensures
            -0x8000_0000_0000_0000 < sum_of(w) < 0x8000_0000_0000_0000,
            0 <= spread(w) < 0x4000_0000_0000_0000_0000_0000_0000_0000,
    {
        lemma_sums_bounded(w);
        lemma_spread_is_dispersion(w);
        let n = N as int;
        let t = sum_of(w);
        let q = sum_sq(w);
        assert(n * 0x8000_0000 < 0x8000_0000_0000_0000) by (nonlinear_arith)
            requires
                0 < n <= 0xFFFF_FFFF,
        ;
        assert(n * q < 0x4000_0000_0000_0000_0000_0000_0000_0000 && t * t >= 0) by (nonlinear_arith)
            requires
                0 < n <= 0xFFFF_FFFF,
                0 <= q <= n * 0x4000_0000_0000_0000,
        ;
    }

    /// A window of `N` values, each zero.
    pub fn new() -> (r: Self)
        requires
            0 < N <= MAX_WINDOW,
        ensures
            r.wf(),
            r@ == Seq::new(N as nat, |_k: int| 0i32),
            r@.len() == N,
    {
        Self::from([0i32; N])
    }

    /// A window that holds `buf`, oldest first; its last value is the newest.
    pub fn from(buf: [i32; N]) -> (r: Self)
        requires
            0 < N <= MAX_WINDOW,
        ensures
            r.wf(),
            r@ == buf@,
            r@.len() == N,
    {
        let n = N as i128;
        let mut sum: i128 = 0;
        let mut squares: i128 = 0;
        let mut i: usize = 0;
        while i < N
            invariant
                0 < N <= MAX_WINDOW,
                i <= N,
                buf@.len() == N,
                sum == sum_of(buf@.subrange(0, i as int)),
                squares == sum_sq(buf@.subrange(0, i as int)),
            decreases N - i,
        {
            let x = buf[i];
            proof {
                let p = buf@.subrange(0, i as int);
                let p1 = buf@.subrange(0, i + 1);
                assert(p1.drop_last() =~= p);
                lemma_sums_bounded(p);
                assert(0 <= x * x <= 0x4000_0000_0000_0000) by (nonlinear_arith)
                    requires
                        -0x8000_0000 <= x < 0x8000_0000,
                ;
                assert(i * 0x4000_0000_0000_0000 <= 0xFFFF_FFFF * 0x4000_0000_0000_0000)
                    by (nonlinear_arith)
                    requires
                        i <= 0xFFFF_FFFF,
                ;
                assert(p.len() == i);
            }
            sum = sum + x as i128;
            squares = squares + x as i128 * x as i128;
            i = i + 1;
        }
        proof {
            assert(buf@.subrange(0, N as int) =~= buf@);
            Self::lemma_aggregates_bounded(buf@);
            lemma_sums_bounded(buf@);
            assert(n * squares <= 0xFFFF_FFFF * (0xFFFF_FFFF * 0x4000_0000_0000_0000))
                by (nonlinear_arith)
                requires
                    0 < n <= 0xFFFF_FFFF,
                    0 <= squares <= n * 0x4000_0000_0000_0000,
            ;
        }
        let spread = n * squares - sum * sum;
        let r = Series { buf, offset: N - 1, n, sum, spread };
        assert(r@ =~= buf@);
        r
    }

    /// Inserts `new` as the newest value; the oldest value leaves the window.
    ///
    /// The sum and the variance are updated from the value that leaves and
    /// the one that enters, without reading the rest of the window.
    pub fn insert(&mut self, new: i32)
        requires
            old(self).wf(),
        ensures
            final(self).wf(),
            final(self)@ == slide(old(self)@, new),
            old(self)@.len() == N,
            final(self)@.len() == N,
            0 < N <= MAX_WINDOW,
    {
        let ghost w = self@;
        let next = if self.offset + 1 == N {
            0
        } else {
            self.offset + 1
        };
        let leaving = self.buf[next];
        self.buf[next] = new;
        self.offset = next;
        let ghost w2 = self@;
        proof {
            assert(w.len() == N);
            assert(leaving == w[0]);
            assert(w2 =~= slide(w, new));
            lemma_sums_drop_first(w);
            let u = w.drop_first();
            assert(u.push(new).drop_last() =~= u);
            Self::lemma_aggregates_bounded(w);
            Self::lemma_aggregates_bounded(w2);
        }
        // `n` times the old and the new mean are the old and the new sum.
        let old_sum = self.sum;
        self.sum = old_sum - leaving as i128 + new as i128;
        let delta = new as i128 - leaving as i128;
        let n = self.n;
        proof {
            let (x, y, s0, s1) = (new as int, leaving as int, old_sum as int, self.sum as int);
            assert(-0x8000_0000_0000_0000 * 4 < n * x - s1 + n * y - s0 < 0x8000_0000_0000_0000
                * 4 && -0x8000_0000_0000_0000 < n * x < 0x8000_0000_0000_0000
                && -0x8000_0000_0000_0000 < n * y < 0x8000_0000_0000_0000) by (nonlinear_arith)
                requires
                    0 < n <= 0xFFFF_FFFF,
                    -0x8000_0000 <= x < 0x8000_0000,
                    -0x8000_0000 <= y < 0x8000_0000,
                    -0x8000_0000_0000_0000 < s0 < 0x8000_0000_0000_0000,
                    -0x8000_0000_0000_0000 < s1 < 0x8000_0000_0000_0000,
            ;
            let f = n * x - s1 + n * y - s0;
            assert(-0x1_0000_0000 <= x - y <= 0x1_0000_0000);
            assert(-0x1_0000_0000 * 0x8000_0000_0000_0000 * 4 <= (x - y) * f
                <= 0x1_0000_0000 * 0x8000_0000_0000_0000 * 4) by (nonlinear_arith)
                requires
                    -0x1_0000_0000 <= x - y <= 0x1_0000_0000,
                    -0x8000_0000_0000_0000 * 4 < f < 0x8000_0000_0000_0000 * 4,
            ;
            lemma_replace_one(n as int, x, y, s0, sum_sq(w));
        }
        self.spread = self.spread + delta * (n * new as i128 - self.sum + n * leaving as i128 - old_sum);
    }

    /// The mean, `sum / N`.
    pub fn mean(&self) -> (r: Ratio)
        requires
            self.wf(),
        ensures
            self@.len() == N,
            0 < N <= MAX_WINDOW,
            r.num == sum_of(self@),
            r.den == N,
    {
        Ratio { num: self.sum, den: self.n }
    }

    /// The population variance: the mean of the squared deviations from the
    /// mean, with divisor `N`.
    pub fn var(&self) -> (r: Ratio)
        requires
            self.wf(),
        ensures
            self@.len() == N,
            0 < N <= MAX_WINDOW,
            r.den == N * N,
            r.num * N == dispersion(self@),
            r.num >= 0,
    {
        proof {
            lemma_spread_is_dispersion(self@);
            assert(self.n * self.n <= 0xFFFF_FFFF * 0xFFFF_FFFF) by (nonlinear_arith)
                requires
                    0 < self.n <= 0xFFFF_FFFF,
            ;
        }
        Ratio { num: self.spread, den: self.n * self.n }
    }

    /// The standard deviation, the principal square root of the variance:
    /// `sqrt(var().num) / N`.
    pub fn stdev(&self) -> (r: Surd)
        requires
            self.wf(),
        ensures
            self@.len() == N,
            0 < N <= MAX_WINDOW,
            r.coef == 1,
            r.radicand * N == dispersion(self@),
            r.radicand >= 0,
            r.den == N,
    {
        proof {
            lemma_spread_is_dispersion(self@);
        }
        Surd { coef: 1, radicand: self.spread, den: self.n }
    }

    /// The newest value.
    pub fn curr(&self) -> (r: i32)
        requires
            self.wf(),
        ensures
            self@.len() == N,
            0 < N <= MAX_WINDOW,
            r == self@.last(),
    {
        self.buf[self.offset]
    }

    /// How many standard deviations the newest value lies from the mean,
    /// `(curr - mean) / stdev`; zero when the standard deviation is zero.
    ///
    /// Multiplying through by `N`, the result is `(N curr - sum) / sqrt(spread)`,
    /// given as `(N curr - sum) * sqrt(spread) / spread`.
    pub fn norm(&self) -> (r: Surd)
        requires
            self.wf(),
        ensures
            self@.len() == N,
            0 < N <= MAX_WINDOW,
            dispersion(self@) == 0 ==> r == (Surd { coef: 0, radicand: 0, den: 1 }),
            dispersion(self@) != 0 ==> {
                &&& r.coef == N * self@.last() - sum_of(self@)
                &&& r.radicand * N == dispersion(self@)
                &&& r.den == r.radicand
            },
    {
        proof {
            lemma_spread_is_dispersion(self@);
            Self::lemma_aggregates_bounded(self@);
        }
        if self.spread == 0 {
            Surd { coef: 0, radicand: 0, den: 1 }
        } else {
            let c = self.curr() as i128;
            proof {
                assert(-0x8000_0000_0000_0000 < self.n * c < 0x8000_0000_0000_0000)
                    by (nonlinear_arith)
                    requires
                        0 < self.n <= 0xFFFF_FFFF,
                        -0x8000_0000 <= c < 0x8000_0000,
                ;
            }
            Surd { coef: self.n * c - self.sum, radicand: self.spread, den: self.spread }
        }
    }

    /// The sum of the window.
    pub fn sum(&self) -> (r: i128)
        requires
            self.wf(),
        ensures
            self@.len() == N,
            0 < N <= MAX_WINDOW,
            r == sum_of(self@),
    {
        self.sum
    }

    /// The value inserted `i` insertions before the newest: index 0 is the
    /// newest value, index `N - 1` the oldest one still in the window.
    pub fn index(&self, i: usize) -> (r: i32)
        requires
            self.wf(),
            i < N,
        ensures
            self@.len() == N,
            0 < N <= MAX_WINDOW,
            r == self@[N - 1 - i],
    {
        // (offset - i) mod N
        let at = if i <= self.offset {
            self.offset - i
        } else {
            N - (i - self.offset)
        };
        self.buf[at]
    }

    /// The value at index `i` as `index` gives it, or `None` when `i` lies
    /// outside the window.
    pub fn get(&self, i: usize) -> (r: Option<i32>)
        requires
            self.wf(),
        ensures
            self@.len() == N,
            0 < N <= MAX_WINDOW,
            i < N ==> r == Some(self@[N - 1 - i]),
            i >= N ==> r is None,
    {
        if i < N {
            Some(self.index(i))
        } else {
            None
        }
    }
}

} // verus!
