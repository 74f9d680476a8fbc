use vstd::prelude::*;

verus! {

/// Number of columns `c` of `q` whose entry satisfies `f(c, q[c])`.
///
/// Every line of the board (a row, a main diagonal, an anti-diagonal) is a
/// predicate over (column, row) pairs, so one counting function serves all
/// three counter arrays.
pub open spec fn count_where(q: Seq<u32>, f: spec_fn(int, u32) -> bool) -> int
    decreases q.len(),
{
    if q.len() == 0 {
        0
    } else {
        count_where(q.drop_last(), f) + (if f(q.len() - 1, q.last()) {
            1int
        } else {
            0int
        })
    }
}

pub proof fn lemma_count_where_bounds(q: Seq<u32>, f: spec_fn(int, u32) -> bool)
    ensures
        0 <= count_where(q, f) <= q.len(),
    decreases q.len(),
{
    if q.len() > 0 {
        lemma_count_where_bounds(q.drop_last(), f);
    }
}

pub proof fn lemma_count_where_push(q: Seq<u32>, f: spec_fn(int, u32) -> bool, x: u32)
    ensures
        count_where(q.push(x), f) == count_where(q, f) + (if f(q.len() as int, x) {
            1int
        } else {
            0int
        }),
{
    assert(q.push(x).drop_last() =~= q);
    assert(q.push(x).last() == x);
}

pub proof fn lemma_count_where_update(q: Seq<u32>, f: spec_fn(int, u32) -> bool, c: int, x: u32)
    requires
        0 <= c < q.len(),
    ensures
        count_where(q.update(c, x), f) == count_where(q, f) - (if f(c, q[c]) {
            1int
        } else {
            0int
        }) + (if f(c, x) {
            1int
        } else {
            0int
        }),
    decreases q.len(),
{
    let q2 = q.update(c, x);
    if c == q.len() - 1 {
        assert(q2.drop_last() =~= q.drop_last());
        assert(q2.last() == x);
    } else {
        assert(q2.drop_last() =~= q.drop_last().update(c, x));
        assert(q2.last() == q.last());
        assert(q.drop_last()[c] == q[c]);
        lemma_count_where_update(q.drop_last(), f, c, x);
    }
}

pub proof fn lemma_count_where_one(q: Seq<u32>, f: spec_fn(int, u32) -> bool, c: int)
    requires
        0 <= c < q.len(),
        f(c, q[c]),
    ensures
        count_where(q, f) >= 1,
    decreases q.len(),
{
    if c == q.len() - 1 {
        lemma_count_where_bounds(q.drop_last(), f);
    } else {
        assert(q.drop_last()[c] == q[c]);
        lemma_count_where_one(q.drop_last(), f, c);
    }
}

pub proof fn lemma_count_where_two(q: Seq<u32>, f: spec_fn(int, u32) -> bool, c1: int, c2: int)
    requires
        0 <= c1 < c2 < q.len(),
        f(c1, q[c1]),
        f(c2, q[c2]),
    ensures
        count_where(q, f) >= 2,
    decreases q.len(),
{
    if c2 == q.len() - 1 {
        assert(q.drop_last()[c1] == q[c1]);
        lemma_count_where_one(q.drop_last(), f, c1);
    } else {
        assert(q.drop_last()[c1] == q[c1]);
        assert(q.drop_last()[c2] == q[c2]);
        lemma_count_where_two(q.drop_last(), f, c1, c2);
    }
}

/// A positive count yields a column where the predicate holds.
pub proof fn lemma_count_where_one_witness(q: Seq<u32>, f: spec_fn(int, u32) -> bool)
    requires
        count_where(q, f) >= 1,
    ensures
        exists|c: int| 0 <= c < q.len() && f(c, q[c]),
    decreases q.len(),
{
    if q.len() > 0 {
        if f(q.len() - 1, q.last()) {
            assert(0 <= q.len() - 1 < q.len() && f(q.len() - 1, q[q.len() - 1]));
        } else {
            lemma_count_where_one_witness(q.drop_last(), f);
            let c = choose|c: int| 0 <= c < q.drop_last().len() && f(c, q.drop_last()[c]);
            assert(0 <= c < q.len() && f(c, q[c]));
        }
    }
}

/// A count of two or more yields two distinct columns where the predicate
/// holds.
pub proof fn lemma_count_where_two_witnesses(q: Seq<u32>, f: spec_fn(int, u32) -> bool)
    requires
        count_where(q, f) >= 2,
    ensures
        exists|c1: int, c2: int| 0 <= c1 < c2 < q.len() && f(c1, q[c1]) && f(c2, q[c2]),
    decreases q.len(),
{
    if q.len() > 0 {
        if f(q.len() - 1, q.last()) {
            lemma_count_where_one_witness(q.drop_last(), f);
            let c = choose|c: int| 0 <= c < q.drop_last().len() && f(c, q.drop_last()[c]);
            assert(0 <= c < q.len() - 1 < q.len() && f(c, q[c]) && f(q.len() - 1, q[q.len() - 1]));
        } else {
            lemma_count_where_bounds(q.drop_last(), f);
            lemma_count_where_two_witnesses(q.drop_last(), f);
            let (c1, c2) = choose|c1: int, c2: int|
                0 <= c1 < c2 < q.drop_last().len() && f(c1, q.drop_last()[c1]) && f(
                    c2,
                    q.drop_last()[c2],
                );
            assert(0 <= c1 < c2 < q.len() && f(c1, q[c1]) && f(c2, q[c2]));
        }
    }
}

/// Counting a disjunction of three pointwise-disjoint predicates splits into
/// the three separate counts.
pub proof fn lemma_count_where_sum3(
    q: Seq<u32>,
    f1: spec_fn(int, u32) -> bool,
    f2: spec_fn(int, u32) -> bool,
    f3: spec_fn(int, u32) -> bool,
    g: spec_fn(int, u32) -> bool,
)
    requires
        forall|c: int|
            0 <= c < q.len() ==> (if g(c, q[c]) {
                1int
            } else {
                0int
            }) == (if f1(c, q[c]) {
                1int
            } else {
                0int
            }) + (if f2(c, q[c]) {
                1int
            } else {
                0int
            }) + (if f3(c, q[c]) {
                1int
            } else {
                0int
            }),
    ensures
        count_where(q, g) == count_where(q, f1) + count_where(q, f2) + count_where(q, f3),
    decreases q.len(),
{
    if q.len() > 0 {
        assert forall|c: int| 0 <= c < q.drop_last().len() implies (if g(
            c,
            q.drop_last()[c],
        ) {
            1int
        } else {
            0int
        }) == (if f1(c, q.drop_last()[c]) {
            1int
        } else {
            0int
        }) + (if f2(c, q.drop_last()[c]) {
            1int
        } else {
            0int
        }) + (if f3(c, q.drop_last()[c]) {
            1int
        } else {
            0int
        }) by {
            assert(q.drop_last()[c] == q[c]);
        }
        lemma_count_where_sum3(q.drop_last(), f1, f2, f3, g);
    }
}

/// Like `lemma_count_where_sum3`, but the pointwise split may fail at one
/// column `e`; the counts then differ exactly by the defect at `e`.
pub proof fn lemma_count_where_sum3_except(
    q: Seq<u32>,
    f1: spec_fn(int, u32) -> bool,
    f2: spec_fn(int, u32) -> bool,
    f3: spec_fn(int, u32) -> bool,
    g: spec_fn(int, u32) -> bool,
    e: int,
)
    requires
        0 <= e < q.len(),
        forall|c: int|
            0 <= c < q.len() && c != e ==> (if g(c, q[c]) {
                1int
            } else {
                0int
            }) == (if f1(c, q[c]) {
                1int
            } else {
                0int
            }) + (if f2(c, q[c]) {
                1int
            } else {
                0int
            }) + (if f3(c, q[c]) {
                1int
            } else {
                0int
            }),
    ensures
        count_where(q, f1) + count_where(q, f2) + count_where(q, f3) - count_where(q, g) == (if f1(
            e,
            q[e],
        ) {
            1int
        } else {
            0int
        }) + (if f2(e, q[e]) {
            1int
        } else {
            0int
        }) + (if f3(e, q[e]) {
            1int
        } else {
            0int
        }) - (if g(e, q[e]) {
            1int
        } else {
            0int
        }),
    decreases q.len(),
{
    if e == q.len() - 1 {
        assert forall|c: int| 0 <= c < q.drop_last().len() implies (if g(c, q.drop_last()[c]) {
            1int
        } else {
            0int
        }) == (if f1(c, q.drop_last()[c]) {
            1int
        } else {
            0int
        }) + (if f2(c, q.drop_last()[c]) {
            1int
        } else {
            0int
        }) + (if f3(c, q.drop_last()[c]) {
            1int
        } else {
            0int
        }) by {
            assert(q.drop_last()[c] == q[c]);
        }
        lemma_count_where_sum3(q.drop_last(), f1, f2, f3, g);
    } else {
        assert forall|c: int|
            0 <= c < q.drop_last().len() && c != e implies (if g(c, q.drop_last()[c]) {
            1int
        } else {
            0int
        }) == (if f1(c, q.drop_last()[c]) {
            1int
        } else {
            0int
        }) + (if f2(c, q.drop_last()[c]) {
            1int
        } else {
            0int
        }) + (if f3(c, q.drop_last()[c]) {
            1int
        } else {
            0int
        }) by {
            assert(q.drop_last()[c] == q[c]);
        }
        assert(q.drop_last()[e] == q[e]);
        lemma_count_where_sum3_except(q.drop_last(), f1, f2, f3, g, e);
    }
}

/// Sum of the entries of a counter array.
pub open spec fn seq_sum(s: Seq<u32>) -> int
    decreases s.len(),
{
    if s.len() == 0 {
        0
    } else {
        seq_sum(s.drop_last()) + s.last()
    }
}

pub proof fn lemma_seq_sum_zero(s: Seq<u32>)
    requires
        forall|i: int| 0 <= i < s.len() ==> s[i] == 0,
    ensures
        seq_sum(s) == 0,
    decreases s.len(),
{
    if s.len() > 0 {
        assert forall|i: int| 0 <= i < s.drop_last().len() implies s.drop_last()[i] == 0 by {
            assert(s.drop_last()[i] == s[i]);
        }
        lemma_seq_sum_zero(s.drop_last());
    }
}

pub proof fn lemma_seq_sum_update(s: Seq<u32>, i: int, x: u32)
    requires
        0 <= i < s.len(),
    ensures
        seq_sum(s.update(i, x)) == seq_sum(s) - s[i] + x,
    decreases s.len(),
{
    let s2 = s.update(i, x);
    if i == s.len() - 1 {
        assert(s2.drop_last() =~= s.drop_last());
        assert(s2.last() == x);
    } else {
        assert(s2.drop_last() =~= s.drop_last().update(i, x));
        assert(s2.last() == s.last());
        assert(s.drop_last()[i] == s[i]);
        lemma_seq_sum_update(s.drop_last(), i, x);
    }
}

} // verus!
