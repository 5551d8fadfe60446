use vstd::prelude::*;

use crate::stats::{dispersion, sum_of};

verus! {

/// The window after one insertion: the oldest value leaves, `v` becomes the newest.
pub open spec fn slide(w: Seq<i32>, v: i32) -> Seq<i32> {
    w.drop_first().push(v)
}

/// The window after inserting each value of `vs`, in order.
pub open spec fn slide_all(w: Seq<i32>, vs: Seq<i32>) -> Seq<i32>
    decreases vs.len(),
{
    if vs.len() == 0 {
        w
    } else {
        slide(slide_all(w, vs.drop_last()), vs.last())
    }
}

/// After any run of insertions the window holds the last `w.len()` values of
/// the old window followed by everything inserted.
pub proof fn lemma_slide_all_suffix(w: Seq<i32>, vs: Seq<i32>)
    requires
        w.len() > 0,
    ensures
        slide_all(w, vs) == (w + vs).subrange(vs.len() as int, (vs.len() + w.len()) as int),
    decreases vs.len(),
{
    let m = vs.len() as int;
    let n = w.len() as int;
    if m == 0 {
        assert((w + vs).subrange(0, n) =~= w);
    } else {
        let p = vs.drop_last();
        lemma_slide_all_suffix(w, p);
        assert((w + p).subrange(m - 1, m - 1 + n).drop_first().push(vs.last()) =~= (w + vs).subrange(
            m,
            m + n,
        ));
    }
}

/// Sliding consistency: once at least `N` values have been inserted into a
/// window of size `N`, the window holds exactly the last `N` of them, so its
/// sum, mean and variance are those of the last `N` inserted values.
pub proof fn lemma_window_holds_latest(w: Seq<i32>, vs: Seq<i32>)
    requires
        w.len() > 0,
        vs.len() >= w.len(),
    ensures
        slide_all(w, vs) == vs.subrange(vs.len() - w.len(), vs.len() as int),
        sum_of(slide_all(w, vs)) == sum_of(vs.subrange(vs.len() - w.len(), vs.len() as int)),
        dispersion(slide_all(w, vs)) == dispersion(
            vs.subrange(vs.len() - w.len(), vs.len() as int),
        ),
{
    lemma_slide_all_suffix(w, vs);
    assert((w + vs).subrange(vs.len() as int, (vs.len() + w.len()) as int) =~= vs.subrange(
        vs.len() - w.len(),
        vs.len() as int,
    ));
}

/// Incremental and batch construction agree: inserting `N` values in order
/// into a window of `N` zeros leaves the same window as building it from
/// those values, hence the same sum, mean and variance.
pub proof fn lemma_inserts_match_batch(v: Seq<i32>)
    requires
        v.len() > 0,
    ensures
        slide_all(Seq::new(v.len(), |_k: int| 0i32), v) == v,
        sum_of(slide_all(Seq::new(v.len(), |_k: int| 0i32), v)) == sum_of(v),
        dispersion(slide_all(Seq::new(v.len(), |_k: int| 0i32), v)) == dispersion(v),
{
    lemma_window_holds_latest(Seq::new(v.len(), |_k: int| 0i32), v);
    assert(v.subrange(0, v.len() as int) =~= v);
}

/// History order: after inserting `a`, `b`, `c` into a window of size 3, the
/// newest value `c` is at index 0, `b` at index 1 and `a` at index 2 (index
/// `i` reads position `N - 1 - i` of the window).
pub proof fn lemma_three_inserts(w: Seq<i32>, a: i32, b: i32, c: i32)
    requires
        w.len() == 3,
    ensures
        slide_all(w, seq![a, b, c]) == seq![a, b, c],
        slide_all(w, seq![a, b, c])[3 - 1 - 0] == c,
        slide_all(w, seq![a, b, c])[3 - 1 - 1] == b,
        slide_all(w, seq![a, b, c])[3 - 1 - 2] == a,
{
    lemma_window_holds_latest(w, seq![a, b, c]);
    assert(seq![a, b, c].subrange(0, 3) =~= seq![a, b, c]);
}

} // verus!
