//! Rows of equal width that lie one after the other in a vector.
use vstd::prelude::*;

verus! {

/// Row `i` of rows of width `width`.
pub open spec fn row<A>(s: Seq<A>, width: int, i: int) -> Seq<A> {
    s.subrange(width * i, width * i + width)
}

/// Whether `s` has row `i`.
pub open spec fn has_row<A>(s: Seq<A>, width: int, i: int) -> bool {
    0 <= i && 0 <= width && width * i + width <= s.len()
}

/// Whether `new` differs from `old` in row `i` at most.
pub open spec fn same_but_row<A>(old_rows: Seq<A>, new_rows: Seq<A>, width: int, i: int) -> bool {
    &&& new_rows.len() == old_rows.len()
    &&& forall|k: int|
        0 <= k < old_rows.len() && !(width * i <= k < width * i + width) ==> #[trigger] new_rows[k]
            == old_rows[k]
}

pub proof fn lemma_has_row<A>(s: Seq<A>, width: int, n: int, i: int)
    requires
        0 <= i < n,
        0 <= width,
        s.len() == width * n,
    ensures
        has_row(s, width, i),
        0 <= width * i,
        row(s, width, i).len() == width,
{
    assert(0 <= width * i) by (nonlinear_arith)
        requires
            0 <= i,
            0 <= width,
    ;
    assert(width * i + width <= width * n) by (nonlinear_arith)
        requires
            i < n,
            0 <= width,
    ;
}

/// A change in one row leaves every other row as it is.
pub proof fn lemma_other_row<A>(old_rows: Seq<A>, new_rows: Seq<A>, width: int, i: int, j: int)
    requires
        same_but_row(old_rows, new_rows, width, i),
        has_row(old_rows, width, j),
        0 <= i,
        i != j,
    ensures
        row(new_rows, width, j) == row(old_rows, width, j),
{
    assert(0 <= width * j) by (nonlinear_arith)
        requires
            0 <= j,
            0 <= width,
    ;
    if i < j {
        assert(width * i + width <= width * j) by (nonlinear_arith)
            requires
                i < j,
                0 <= width,
        ;
    } else {
        assert(width * j + width <= width * i) by (nonlinear_arith)
            requires
                j < i,
                0 <= width,
        ;
    }
    assert(row(new_rows, width, j) =~= row(old_rows, width, j));
}

/// Two sequences of the same rows are the same.
pub proof fn lemma_equal_rows<A>(first: Seq<A>, second: Seq<A>, width: int, n: int)
    requires
        0 <= width,
        0 <= n,
        first.len() == width * n,
        second.len() == width * n,
        forall|i: int| 0 <= i < n ==> #[trigger] row(first, width, i) == row(second, width, i),
    ensures
        first == second,
{
    assert forall|k: int| 0 <= k < width * n implies first[k] == second[k] by {
        assert(width > 0) by (nonlinear_arith)
            requires
                0 <= width,
                0 <= n,
                0 < width * n,
        ;
        let i = k / width;
        vstd::arithmetic::div_mod::lemma_fundamental_div_mod(k, width);
        assert(0 <= i < n) by (nonlinear_arith)
            requires
                0 < width,
                0 <= k < width * n,
                k == width * i + k % width,
                0 <= k % width < width,
        ;
        lemma_has_row(first, width, n, i);
        lemma_has_row(second, width, n, i);
        assert(row(first, width, i)[k % width] == first[k]);
        assert(row(second, width, i)[k % width] == second[k]);
    }
    assert(first =~= second);
}

/// Where rows are put behind others, each keeps its values.
pub proof fn lemma_joined_row<A>(first: Seq<A>, second: Seq<A>, width: int, m: int, n: int, i: int)
    requires
        0 <= width,
        0 <= m,
        0 <= i < m + n,
        first.len() == width * m,
        second.len() == width * n,
    ensures
        row(first + second, width, i) == if i < m {
            row(first, width, i)
        } else {
            row(second, width, i - m)
        },
{
    if i < m {
        lemma_has_row(first, width, m, i);
        assert(row(first + second, width, i) =~= row(first, width, i));
    } else {
        lemma_has_row(second, width, n, i - m);
        assert(width * i == width * m + width * (i - m)) by (nonlinear_arith);
        assert(row(first + second, width, i) =~= row(second, width, i - m));
    }
}

/// Copies row `src` over row `dst`.
pub fn copy_row<A: Copy>(v: &mut Vec<A>, width: usize, src: usize, dst: usize)
    requires
        has_row(old(v)@, width as int, src as int),
        has_row(old(v)@, width as int, dst as int),
    ensures
        same_but_row(old(v)@, final(v)@, width as int, dst as int),
        row(final(v)@, width as int, dst as int) == row(old(v)@, width as int, src as int),
{
    proof {
        assert(0 <= width * src && 0 <= width * dst) by (nonlinear_arith);
        if src < dst {
            assert(width * src + width <= width * dst) by (nonlinear_arith)
                requires
                    src < dst,
            ;
        } else if dst < src {
            assert(width * dst + width <= width * src) by (nonlinear_arith)
                requires
                    dst < src,
            ;
        }
    }
    let len: usize = v.len();
    let src_start: usize = width * src;
    let dst_start: usize = width * dst;
    let mut j: usize = 0;
    while j < width
        invariant
            j <= width,
            src_start == width * src,
            dst_start == width * dst,
            src_start + width <= old(v)@.len(),
            dst_start + width <= old(v)@.len(),
            src == dst || src_start + width <= dst_start || dst_start + width <= src_start,
            src == dst ==> src_start == dst_start,
            v@.len() == old(v)@.len() == len,
            forall|k: int|
                dst_start <= k < dst_start + j ==> #[trigger] v@[k] == old(v)@[k - dst_start
                    + src_start],
            forall|k: int|
                0 <= k < v@.len() && !(dst_start <= k < dst_start + j) ==> #[trigger] v@[k] == old(
                    v,
                )@[k],
        decreases width - j,
    {
        let value = v[src_start + j];
        let at: usize = dst_start + j;
        v[at] = value;
        j = j + 1;
    }
    assert(row(v@, width as int, dst as int) =~= row(old(v)@, width as int, src as int));
}

/// Fills row `dst` with `value`.
pub fn fill_row<A: Copy>(v: &mut Vec<A>, width: usize, dst: usize, value: A)
    requires
        has_row(old(v)@, width as int, dst as int),
    ensures
        same_but_row(old(v)@, final(v)@, width as int, dst as int),
        row(final(v)@, width as int, dst as int) == Seq::new(width as nat, |j: int| value),
{
    proof {
        assert(0 <= width * dst) by (nonlinear_arith);
    }
    let len: usize = v.len();
    let start: usize = width * dst;
    let mut j: usize = 0;
    while j < width
        invariant
            j <= width,
            start == width * dst,
            start + width <= old(v)@.len(),
            v@.len() == old(v)@.len() == len,
            forall|k: int| start <= k < start + j ==> #[trigger] v@[k] == value,
            forall|k: int|
                0 <= k < v@.len() && !(start <= k < start + j) ==> #[trigger] v@[k] == old(v)@[k],
        decreases width - j,
    {
        let at: usize = start + j;
        v[at] = value;
        j = j + 1;
    }
    assert(row(v@, width as int, dst as int) =~= Seq::new(width as nat, |j: int| value));
}

/// Writes `value` over row `dst` of rows of one.
pub fn write_one<A>(v: &mut Vec<A>, dst: usize, value: A)
    requires
        dst < old(v)@.len(),
    ensures
        same_but_row(old(v)@, final(v)@, 1, dst as int),
        final(v)@[dst as int] == value,
{
    v[dst] = value;
}

/// Writes `values` over row `dst`.
pub fn write_row<A: Copy>(v: &mut Vec<A>, width: usize, dst: usize, values: &Vec<A>)
    requires
        has_row(old(v)@, width as int, dst as int),
        values@.len() == width,
    ensures
        same_but_row(old(v)@, final(v)@, width as int, dst as int),
        row(final(v)@, width as int, dst as int) == values@,
{
    proof {
        assert(0 <= width * dst) by (nonlinear_arith);
    }
    let len: usize = v.len();
    let start: usize = width * dst;
    let mut j: usize = 0;
    while j < width
        invariant
            j <= width,
            start == width * dst,
            start + width <= old(v)@.len(),
            v@.len() == old(v)@.len() == len,
            values@.len() == width,
            forall|k: int| start <= k < start + j ==> #[trigger] v@[k] == values@[k - start],
            forall|k: int|
                0 <= k < v@.len() && !(start <= k < start + j) ==> #[trigger] v@[k] == old(v)@[k],
        decreases width - j,
    {
        let at: usize = start + j;
        v[at] = values[j];
        j = j + 1;
    }
    assert(row(v@, width as int, dst as int) =~= values@);
}

} // verus!
