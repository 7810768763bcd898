//! Counting unset flags in rows of booleans; the measure that bounds the
//! flood fills.
use vstd::prelude::*;

verus! {

/// Number of `false` entries of a row.
pub open spec fn count_false(s: Seq<bool>) -> nat
    decreases s.len(),
{
    if s.len() == 0 {
        0
    } else {
        count_false(s.drop_last()) + if !s.last() {
            1nat
        } else {
            0nat
        }
    }
}

/// Number of `false` entries of all rows.
pub open spec fn sum_false(v: Seq<Seq<bool>>) -> nat
    decreases v.len(),
{
    if v.len() == 0 {
        0
    } else {
        sum_false(v.drop_last()) + count_false(v.last())
    }
}

pub proof fn lemma_count_false_update(s: Seq<bool>, i: int)
    requires
        0 <= i < s.len(),
        !s[i],
    ensures
        count_false(s.update(i, true)) + 1 == count_false(s),
    decreases s.len(),
{
    let u = s.update(i, true);
    if i == s.len() - 1 {
        assert(u.drop_last() =~= s.drop_last());
    } else {
        assert(u.drop_last() =~= s.drop_last().update(i, true));
        lemma_count_false_update(s.drop_last(), i);
    }
}

pub proof fn lemma_sum_false_update(v: Seq<Seq<bool>>, y: int, row: Seq<bool>)
    requires
        0 <= y < v.len(),
        count_false(row) + 1 == count_false(v[y]),
    ensures
        sum_false(v.update(y, row)) + 1 == sum_false(v),
    decreases v.len(),
{
    let u = v.update(y, row);
    if y == v.len() - 1 {
        assert(u.drop_last() =~= v.drop_last());
    } else {
        assert(u.drop_last() =~= v.drop_last().update(y, row));
        lemma_sum_false_update(v.drop_last(), y, row);
    }
}

/// A row of `false` counts every entry.
pub proof fn lemma_count_false_all(s: Seq<bool>)
    requires
        forall|i: int| 0 <= i < s.len() ==> !#[trigger] s[i],
    ensures
        count_false(s) == s.len(),
    decreases s.len(),
{
    if s.len() > 0 {
        lemma_count_false_all(s.drop_last());
    }
}

/// A `w` by `h` grid of `false` counts `w * h`.
pub proof fn lemma_sum_false_all(v: Seq<Seq<bool>>, w: int, h: int)
    requires
        v.len() == h,
        0 <= w,
        forall|y: int| 0 <= y < h ==> #[trigger] v[y].len() == w,
        forall|x: int, y: int| 0 <= y < h && 0 <= x < w ==> !#[trigger] v[y][x],
    ensures
        sum_false(v) == w * h,
    decreases v.len(),
{
    if v.len() > 0 {
        let u = v.drop_last();
        assert forall|x: int, y: int| 0 <= y < h - 1 && 0 <= x < w implies !#[trigger] u[y][x] by {
            assert(u[y] == v[y]);
        }
        assert forall|y: int| 0 <= y < h - 1 implies #[trigger] u[y].len() == w by {
            assert(u[y] == v[y]);
        }
        lemma_sum_false_all(u, w, h - 1);
        assert forall|i: int| 0 <= i < v.last().len() implies !#[trigger] v.last()[i] by {
            assert(!v[h - 1][i]);
        }
        lemma_count_false_all(v.last());
        assert(w * h == w * (h - 1) + w) by (nonlinear_arith);
    } else {
        assert(w * h == 0) by (nonlinear_arith)
            requires
                h == 0,
        ;
    }
}

} // verus!
