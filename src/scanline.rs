use vstd::prelude::*;
use crate::scalar::{Scalar, lt, le, lemma_le_reflexive};
use crate::shape::{Shape, shape_crossings};

verus! {

/// Each value is at or below the next one.
pub open spec fn sorted<S: Scalar>(v: Seq<S>) -> bool {
    forall|k: int| 0 <= k < v.len() - 1 ==> #[trigger] le(v[k], v[k + 1])
}

/// `le` is transitive on the values of `v` together with `x`: nothing there
/// compares inconsistently, as an undefined number would.
pub open spec fn ordered_on<S: Scalar>(v: Seq<S>, x: S) -> bool {
    let w = v.push(x);
    forall|a: S, b: S, c: S|
        #![trigger w.contains(a), w.contains(b), w.contains(c)]
        w.contains(a) && w.contains(b) && w.contains(c) && le(a, b) && le(b, c) ==> le(a, c)
}

/// How many values of `v` lie at or below `x`: the crossings a ray from far
/// left meets on its way to `x`.
pub open spec fn count_at_or_below<S: Scalar>(v: Seq<S>, x: S) -> nat
    decreases v.len(),
{
    if v.len() == 0 {
        0
    } else {
        count_at_or_below(v.drop_last(), x) + (if le(v.last(), x) { 1nat } else { 0nat })
    }
}

/// `i` is where `x` goes in `v`: after every value at or below it and before
/// the first one above it.
pub open spec fn insertion_point<S: Scalar>(v: Seq<S>, x: S, i: int) -> bool {
    &&& 0 <= i <= v.len()
    &&& (i == 0 || le(v[i - 1], x))
    &&& (i == v.len() || lt(x, v[i]))
}

proof fn lemma_sorted_pairwise<S: Scalar>(v: Seq<S>, x: S, j: int, k: int)
    requires
        sorted(v),
        ordered_on(v, x),
        0 <= j <= k < v.len(),
    ensures
        le(v[j], v[k]),
    decreases k - j,
{
    let w = v.push(x);
    if j == k {
        lemma_le_reflexive(v[j]);
    } else {
        lemma_sorted_pairwise(v, x, j, k - 1);
        let k1 = k - 1;
        assert(le(v[k1], v[k1 + 1]));
        assert(w[j] == v[j] && w[k - 1] == v[k - 1] && w[k] == v[k]);
        assert(w.contains(v[j]) && w.contains(v[k - 1]) && w.contains(v[k]));
    }
}

proof fn lemma_count_prefix<S: Scalar>(v: Seq<S>, x: S, i: int, n: int)
    requires
        0 <= i <= v.len(),
        0 <= n <= v.len(),
        forall|j: int| 0 <= j < i ==> le(#[trigger] v[j], x),
        forall|j: int| i <= j < v.len() ==> !le(#[trigger] v[j], x),
    ensures
        count_at_or_below(v.subrange(0, n), x) == if n <= i { n } else { i },
    decreases n,
{
    if n > 0 {
        lemma_count_prefix(v, x, i, n - 1);
        assert(v.subrange(0, n).drop_last() =~= v.subrange(0, n - 1));
        assert(v.subrange(0, n).last() == v[n - 1]);
    }
}

/// On a sorted crossing list that the order treats consistently, the
/// insertion point of `x` is the number of crossings at or below `x`, so its
/// parity is the parity of the crossings a ray from far left meets.
pub proof fn lemma_insertion_point_counts<S: Scalar>(v: Seq<S>, x: S, i: int)
    requires
        sorted(v),
        ordered_on(v, x),
        insertion_point(v, x, i),
    ensures
        count_at_or_below(v, x) == i,
{
    let w = v.push(x);
    assert forall|j: int| 0 <= j < i implies le(#[trigger] v[j], x) by {
        lemma_sorted_pairwise(v, x, j, i - 1);
        assert(w[j] == v[j] && w[i - 1] == v[i - 1] && w[v.len() as int] == x);
        assert(w.contains(v[j]) && w.contains(v[i - 1]) && w.contains(x));
    }
    assert forall|j: int| i <= j < v.len() implies !le(#[trigger] v[j], x) by {
        lemma_sorted_pairwise(v, x, i, j);
        assert(w[j] == v[j] && w[i] == v[i] && w[v.len() as int] == x);
        assert(w.contains(v[j]) && w.contains(v[i]) && w.contains(x));
        if le(v[j], x) {
            assert(le(v[i], x));
        }
    }
    lemma_count_prefix(v, x, i, v.len() as int);
    assert(v.subrange(0, v.len() as int) =~= v);
}

/// Where insertion sort puts `x` in `s`, looking down from position `j`:
/// after the last value that `x` is not below.
pub open spec fn insert_position<S: Scalar>(s: Seq<S>, x: S, j: int) -> int
    decreases j,
{
    if j <= 0 || !lt(x, s[j - 1]) {
        j
    } else {
        insert_position(s, x, j - 1)
    }
}

/// `v` sorted by insertion, each value placed after the values it is not below.
pub open spec fn sorted_seq<S: Scalar>(v: Seq<S>) -> Seq<S>
    decreases v.len(),
{
    if v.len() == 0 {
        v
    } else {
        let s = sorted_seq(v.drop_last());
        s.insert(insert_position(s, v.last(), s.len() as int), v.last())
    }
}

/// On a sorted crossing list that the order treats consistently, `x` has one
/// insertion point: a query lands on the same index whatever the cursor held
/// before, so no state carries from one query to the next.
pub proof fn lemma_insertion_point_unique<S: Scalar>(v: Seq<S>, x: S, i: int, j: int)
    requires
        sorted(v),
        ordered_on(v, x),
        insertion_point(v, x, i),
        insertion_point(v, x, j),
    ensures
        i == j,
{
    lemma_insertion_point_counts(v, x, i);
    lemma_insertion_point_counts(v, x, j);
}

/// Sorts `v` ascending by inserting each value after every value not above it.
fn sort_ascending<S: Scalar>(v: &Vec<S>) -> (r: Vec<S>)
    ensures
        r@ == sorted_seq(v@),
        sorted(r@),
        r@.to_multiset() == v@.to_multiset(),
{
    let mut out: Vec<S> = Vec::new();
    let mut i: usize = 0;
    assert(v@.subrange(0, 0) =~= out@);
    while i < v.len()
        invariant
            i <= v@.len(),
            out@ == sorted_seq(v@.subrange(0, i as int)),
            sorted(out@),
            out@.to_multiset() == v@.subrange(0, i as int).to_multiset(),
        decreases v@.len() - i,
    {
        let x = v[i];
        let mut j: usize = out.len();
        while j > 0 && x.lt(&out[j - 1])
            invariant
                j <= out@.len(),
                insert_position(out@, x, j as int) == insert_position(out@, x, out@.len() as int),
                forall|k: int| j <= k < out@.len() ==> lt(x, #[trigger] out@[k]),
            decreases j,
        {
            j = j - 1;
        }
        proof {
            if j < out@.len() {
                S::lemma_lt_asymmetric(x, out@[j as int]);
            }
            assert(v@.subrange(0, i as int + 1) =~= v@.subrange(0, i as int).push(x));
            assert(v@.subrange(0, i as int + 1).drop_last() =~= v@.subrange(0, i as int));
        }
        let ghost before = out@;
        out.insert(j, x);
        proof {
            assert(out@ == before.insert(j as int, x));
            vstd::seq_lib::to_multiset_insert(before, j as int, x);
            vstd::seq_lib::to_multiset_build(v@.subrange(0, i as int), x);
            assert forall|k: int| 0 <= k < out@.len() - 1 implies #[trigger] le(out@[k], out@[k + 1]) by {
                if k < j as int - 1 {
                    assert(out@[k] == before[k] && out@[k + 1] == before[k + 1]);
                    assert(le(before[k], before[k + 1]));
                } else if k == j as int - 1 {
                    assert(out@[k] == before[k] && out@[k + 1] == x);
                } else if k == j as int {
                    assert(out@[k] == x && out@[k + 1] == before[k]);
                } else {
                    assert(out@[k] == before[k - 1] && out@[k + 1] == before[k]);
                    let k1 = k - 1;
                    assert(le(before[k1], before[k1 + 1]));
                }
            }
        }
        i = i + 1;
    }
    assert(v@.subrange(0, v@.len() as int) =~= v@);
    out
}

/// The crossings of one row, ascending, with a cursor remembering where the
/// previous query landed.
pub struct Scanline<S: Scalar> {
    intersections: Vec<S>,
    index: usize,
}

impl<S: Scalar> Scanline<S> {
    #[verifier::type_invariant]
    closed spec fn wf(self) -> bool {
        sorted(self.intersections@)
    }

    /// The row's crossings, ascending.
    pub closed spec fn crossings(self) -> Seq<S> {
        self.intersections@
    }

    /// Where the previous query landed.
    pub closed spec fn cursor(self) -> usize {
        self.index
    }

    /// A scanline over the given crossings, in any order.
    pub fn new(intersections: &Vec<S>) -> (r: Scanline<S>)
        ensures
            r.crossings() == sorted_seq(intersections@),
            sorted(r.crossings()),
            r.crossings().to_multiset() == intersections@.to_multiset(),
            r.cursor() == 0,
    {
        Scanline { intersections: sort_ascending(intersections), index: 0 }
    }

    /// Moves the cursor back to the first crossing.
    pub fn reset(&mut self)
        ensures
            final(self).crossings() == old(self).crossings(),
            final(self).cursor() == 0,
    {
        proof {
            use_type_invariant(&*self);
        }
        self.index = 0;
    }

    /// Walks the cursor from its last position to the insertion point of `x`.
    fn move_to(&mut self, x: S) -> (r: usize)
        ensures
            final(self).crossings() == old(self).crossings(),
            final(self).cursor() == r,
            insertion_point(old(self).crossings(), x, r as int),
    {
        proof {
            use_type_invariant(&*self);
        }
        let len = self.intersections.len();
        let mut index = self.index;
        while index > 0 && (index >= len || x.lt(&self.intersections[index]))
            invariant
                len == self.intersections@.len(),
                index <= old(self).index,
                self.intersections@ == old(self).intersections@,
            decreases index,
        {
            index = index - 1;
        }
        let ghost first = index;
        while index < len && !x.lt(&self.intersections[index])
            invariant
                len == self.intersections@.len(),
                first <= index <= len,
                first == 0 || first < len,
                first == 0 || le(self.intersections@[first as int], x),
                index == first || le(self.intersections@[index - 1], x),
                self.intersections@ == old(self).intersections@,
            decreases len - index,
        {
            index = index + 1;
        }
        self.index = index;
        index
    }

    /// Whether `x` lies inside the outline on this row: an odd number of
    /// crossings at or below it. The query may come in any order.
    pub fn is_filled(&mut self, x: S) -> (r: bool)
        ensures
            final(self).crossings() == old(self).crossings(),
            insertion_point(old(self).crossings(), x, final(self).cursor() as int),
            r == (final(self).cursor() % 2 == 1),
            ordered_on(old(self).crossings(), x) ==> r == (count_at_or_below(
                old(self).crossings(),
                x,
            ) % 2 == 1),
    {
        proof {
            use_type_invariant(&*self);
        }
        let i = self.move_to(x);
        proof {
            if ordered_on(old(self).crossings(), x) {
                lemma_insertion_point_counts(old(self).crossings(), x, i as int);
            }
        }
        i % 2 == 1
    }
}

impl<S: Scalar> Shape<S> {
    /// The scanline of the row at `y`: the outline's crossings with it, sorted.
    pub fn scanline(&self, y: S) -> (r: Scanline<S>)
        ensures
            r.crossings() == sorted_seq(shape_crossings(*self, y)),
            r.crossings().to_multiset() == shape_crossings(*self, y).to_multiset(),
            sorted(r.crossings()),
            r.cursor() == 0,
    {
        let intersections = self.scanline_intersections(y);
        Scanline::new(&intersections)
    }
}

} // verus!
