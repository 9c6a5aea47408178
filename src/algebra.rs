//! Elementwise algebra on stores: sums and differences in place, the sum of
//! two stores of possibly different rank, maps, and a scan in packing order.
use vstd::prelude::*;
use crate::dimension::SquareDimension;
use crate::layout::{lemma_tri_grows, offset};
use crate::scalar::Scalar;
use crate::upper_tri::{IndexPair, UpperTriRawData};

verus! {

/// Every slot that `a` and `b` share has a sum within range.
pub open spec fn add_fits<T: Scalar>(a: Seq<T>, b: Seq<T>) -> bool {
    forall|k: int|
        #![trigger a[k], b[k]]
        0 <= k < a.len() && k < b.len() ==> T::in_range(a[k].as_int() + b[k].as_int())
}

/// Every slot that `a` and `b` share has a difference within range.
pub open spec fn sub_fits<T: Scalar>(a: Seq<T>, b: Seq<T>) -> bool {
    forall|k: int|
        #![trigger a[k], b[k]]
        0 <= k < a.len() && k < b.len() ==> T::in_range(a[k].as_int() - b[k].as_int())
}

/// `a` with `b` added slot by slot where `b` has a slot; `a`'s length.
pub open spec fn added_in<T: Scalar>(a: Seq<T>, b: Seq<T>) -> Seq<T> {
    Seq::new(a.len(), |k: int| if k < b.len() { a[k].spec_plus(b[k]) } else { a[k] })
}

/// `a` with `b` subtracted slot by slot where `b` has a slot; `a`'s length.
pub open spec fn subtracted_in<T: Scalar>(a: Seq<T>, b: Seq<T>) -> Seq<T> {
    Seq::new(a.len(), |k: int| if k < b.len() { a[k].spec_minus(b[k]) } else { a[k] })
}

/// The sum of `a` and `b`, the shorter one read as zero past its end.
pub open spec fn added<T: Scalar>(a: Seq<T>, b: Seq<T>) -> Seq<T> {
    Seq::new(
        if a.len() >= b.len() { a.len() } else { b.len() },
        |k: int|
            if k < a.len() && k < b.len() {
                a[k].spec_plus(b[k])
            } else if k < a.len() {
                a[k]
            } else {
                b[k]
            },
    )
}

pub proof fn lemma_plus_commutes<T: Scalar>(a: T, b: T)
    requires
        T::in_range(a.as_int() + b.as_int()),
    ensures
        a.spec_plus(b) == b.spec_plus(a),
{
    T::lemma_arith(a, b);
    T::lemma_arith(b, a);
    T::lemma_as_int(a.spec_plus(b), b.spec_plus(a));
}

/// `trace` is a run of `accumulator` over the first `trace.len() - 1` slots
/// of `buf`: it starts from `trace[0]` and `trace[j + 1]` is what
/// `accumulator` returned for slot `j` and `trace[j]`.
pub open spec fn is_scan<T, A, F: Fn(&T, &A) -> A>(buf: Seq<T>, accumulator: F, trace: Seq<A>) -> bool {
    &&& 1 <= trace.len() <= buf.len() + 1
    &&& forall|j: int|
        0 <= j < trace.len() - 1 ==> accumulator.ensures((&buf[j], &trace[j]), #[trigger] trace[j + 1])
}

/// `test` returned true on `trace[1] .. trace[upto - 1]`.
pub open spec fn passes<A, P: Fn(&A) -> bool>(test: P, trace: Seq<A>, upto: int) -> bool {
    forall|j: int| 1 <= j < upto ==> test.ensures((&#[trigger] trace[j],), true)
}

/// `add` is commutative: both orders give the same buffer.
pub proof fn lemma_add_commutative<T: Scalar>(a: Seq<T>, b: Seq<T>)
    requires
        add_fits(a, b),
    ensures
        add_fits(b, a),
        added(a, b) == added(b, a),
{
    assert forall|k: int| 0 <= k < a.len() && k < b.len() implies #[trigger] a[k].spec_plus(b[k])
        == b[k].spec_plus(a[k]) by {
        lemma_plus_commutes(a[k], b[k]);
    }
    assert(added(a, b) =~= added(b, a));
}

/// `add` is associative on stores of one rank, where no sum on either side
/// leaves the element type's range.
pub proof fn lemma_add_associative<T: Scalar>(a: Seq<T>, b: Seq<T>, c: Seq<T>)
    requires
        a.len() == b.len(),
        b.len() == c.len(),
        add_fits(a, b),
        add_fits(added(a, b), c),
        add_fits(b, c),
        add_fits(a, added(b, c)),
    ensures
        added(added(a, b), c) == added(a, added(b, c)),
{
    assert forall|k: int| 0 <= k < a.len() implies #[trigger] added(added(a, b), c)[k] == added(
        a,
        added(b, c),
    )[k] by {
        assert(T::in_range(a[k].as_int() + b[k].as_int()));
        assert(T::in_range(added(a, b)[k].as_int() + c[k].as_int()));
        assert(T::in_range(b[k].as_int() + c[k].as_int()));
        assert(T::in_range(a[k].as_int() + added(b, c)[k].as_int()));
        T::lemma_arith(a[k], b[k]);
        T::lemma_arith(b[k], c[k]);
        T::lemma_arith(a[k].spec_plus(b[k]), c[k]);
        T::lemma_arith(a[k], b[k].spec_plus(c[k]));
        T::lemma_as_int(
            a[k].spec_plus(b[k]).spec_plus(c[k]),
            a[k].spec_plus(b[k].spec_plus(c[k])),
        );
    }
    assert(added(added(a, b), c) =~= added(a, added(b, c)));
}

/// Subtracting `b` and then adding it back restores `a`, on stores of one
/// rank where the difference stays in range.
pub proof fn lemma_sub_then_add<T: Scalar>(a: Seq<T>, b: Seq<T>)
    requires
        a.len() == b.len(),
        sub_fits(a, b),
    ensures
        add_fits(subtracted_in(a, b), b),
        added(subtracted_in(a, b), b) == a,
{
    let d = subtracted_in(a, b);
    assert forall|k: int| 0 <= k < d.len() && k < b.len() implies T::in_range(
        #[trigger] d[k].as_int() + b[k].as_int(),
    ) && d[k].spec_plus(b[k]) == a[k] by {
        assert(T::in_range(a[k].as_int() - b[k].as_int()));
        T::lemma_arith(a[k], b[k]);
        T::lemma_as_int(a[k], b[k]);
        T::lemma_arith(d[k], b[k]);
        T::lemma_as_int(d[k].spec_plus(b[k]), a[k]);
    }
    assert forall|k: int| 0 <= k < a.len() implies #[trigger] added(d, b)[k] == a[k] by {
        assert(T::in_range(d[k].as_int() + b[k].as_int()));
    }
    assert(added(d, b) =~= a);
}

impl<T: Scalar, D: SquareDimension> UpperTriRawData<T, D> {
    /// Adds `rhs` slot by slot over the slots both have: over the cells of
    /// the smaller rank. The rank of `self` is kept.
    pub(crate) fn add_overlap(&mut self, rhs: &Self)
        requires
            old(self).wf(),
            rhs.wf(),
            add_fits(old(self)@, rhs@),
        ensures
            final(self).wf(),
            final(self).dim() == old(self).dim(),
            final(self)@ == added_in(old(self)@, rhs@),
    {
        let n = self.data_size();
        let m = rhs.data_size();
        let src = rhs.buffer();
        let mut k: usize = 0;
        while k < n && k < m
            invariant
                n == old(self)@.len(),
                m == rhs@.len(),
                k <= n,
                k <= m,
                src@ == rhs@,
                add_fits(old(self)@, rhs@),
                self.dim() == old(self).dim(),
                self@.len() == n,
                forall|j: int| 0 <= j < k ==> #[trigger] self@[j] == old(self)@[j].spec_plus(rhs@[j]),
                forall|j: int| k <= j < n ==> #[trigger] self@[j] == old(self)@[j],
            decreases n - k,
        {
            let v = src[k];
            let cell = self.slot_mut(k);
            assert(T::in_range(old(self)@[k as int].as_int() + rhs@[k as int].as_int()));
            *cell = (*cell).plus(v);
            k = k + 1;
        }
        assert(self@ =~= added_in(old(self)@, rhs@));
    }

    /// Subtracts `rhs` slot by slot over the slots both have: over the cells
    /// of the smaller rank. The rank of `self` is kept; `self` is not
    /// extended.
    pub fn sub_assign(&mut self, rhs: &Self)
        requires
            old(self).wf(),
            rhs.wf(),
            sub_fits(old(self)@, rhs@),
        ensures
            final(self).wf(),
            final(self).dim() == old(self).dim(),
            final(self)@ == subtracted_in(old(self)@, rhs@),
    {
        let n = self.data_size();
        let m = rhs.data_size();
        let src = rhs.buffer();
        let mut k: usize = 0;
        while k < n && k < m
            invariant
                n == old(self)@.len(),
                m == rhs@.len(),
                k <= n,
                k <= m,
                src@ == rhs@,
                sub_fits(old(self)@, rhs@),
                self.dim() == old(self).dim(),
                self@.len() == n,
                forall|j: int| 0 <= j < k ==> #[trigger] self@[j] == old(self)@[j].spec_minus(rhs@[j]),
                forall|j: int| k <= j < n ==> #[trigger] self@[j] == old(self)@[j],
            decreases n - k,
        {
            let v = src[k];
            let cell = self.slot_mut(k);
            assert(T::in_range(old(self)@[k as int].as_int() - rhs@[k as int].as_int()));
            *cell = (*cell).minus(v);
            k = k + 1;
        }
        assert(self@ =~= subtracted_in(old(self)@, rhs@));
    }
}

impl<T, D: SquareDimension> UpperTriRawData<T, D> {
    /// A store of the same rank whose every cell is `f` of the cell here.
    pub fn map<B, F: Fn(&T) -> B>(&self, f: F) -> (r: UpperTriRawData<B, D>)
        requires
            self.wf(),
            forall|k: int| 0 <= k < self@.len() ==> f.requires((&#[trigger] self@[k],)),
        ensures
            r.wf(),
            r.dim() == self.dim(),
            r@.len() == self@.len(),
            forall|k: int| 0 <= k < self@.len() ==> f.ensures((&#[trigger] self@[k],), r@[k]),
    {
        let src = self.buffer();
        let n = src.len();
        let mut buf: Vec<B> = Vec::with_capacity(n);
        let mut k: usize = 0;
        while k < n
            invariant
                n == self@.len(),
                src@ == self@,
                k <= n,
                buf@.len() == k,
                forall|j: int| 0 <= j < self@.len() ==> f.requires((&#[trigger] self@[j],)),
                forall|j: int| 0 <= j < k ==> f.ensures((&#[trigger] self@[j],), buf@[j]),
            decreases n - k,
        {
            let v = f(&src[k]);
            buf.push(v);
            k = k + 1;
        }
        UpperTriRawData::from_parts(buf, self.dimension())
    }

    /// Replaces every cell by `f` of its value.
    pub fn map_inplace<F: Fn(&T) -> T>(&mut self, f: F)
        requires
            old(self).wf(),
            forall|k: int| 0 <= k < old(self)@.len() ==> f.requires((&#[trigger] old(self)@[k],)),
        ensures
            final(self).wf(),
            final(self).dim() == old(self).dim(),
            final(self)@.len() == old(self)@.len(),
            forall|k: int|
                0 <= k < old(self)@.len() ==> f.ensures((&#[trigger] old(self)@[k],), final(self)@[k]),
    {
        let n = self.data_size();
        let mut k: usize = 0;
        while k < n
            invariant
                n == old(self)@.len(),
                k <= n,
                self.dim() == old(self).dim(),
                self@.len() == n,
                forall|j: int| 0 <= j < n ==> f.requires((&#[trigger] old(self)@[j],)),
                forall|j: int| 0 <= j < k ==> f.ensures((&#[trigger] old(self)@[j],), self@[j]),
                forall|j: int| k <= j < n ==> #[trigger] self@[j] == old(self)@[j],
            decreases n - k,
        {
            let v = f(&self.buffer()[k]);
            let cell = self.slot_mut(k);
            *cell = v;
            k = k + 1;
        }
    }

    /// Folds `accumulator` over the cells in packing order (column by column,
    /// rows ascending), starting from what `Accum::default()` returned, and
    /// stops at the first cell after which `test` fails on the running value:
    /// it returns that cell and that value. When `test` never fails it returns `(0, 0)`
    /// and the value after the last cell.
    pub fn find_with_indices<Accum, Test, Accumulator>(
        &self,
        test: Test,
        accumulator: Accumulator,
    ) -> (r: (IndexPair, Accum)) where
        Accum: Default,
        Test: Fn(&Accum) -> bool,
        Accumulator: Fn(&T, &Accum) -> Accum,

        requires
            self.wf(),
            forall|t: &T, a: &Accum| accumulator.requires((t, a)),
            forall|a: &Accum| test.requires((a,)),
        ensures
            exists|trace: Seq<Accum>|
                #[trigger] is_scan(self@, accumulator, trace) && call_ensures(
                    Accum::default,
                    (),
                    trace[0],
                ) && r.1 == trace.last() && ({
                    ||| trace.len() >= 2 && passes(test, trace, trace.len() - 1) && test.ensures(
                        (&trace.last(),),
                        false,
                    ) && r.0.row <= r.0.col && offset(r.0.row as nat, r.0.col as nat) == trace.len()
                        - 2
                    ||| trace.len() == self@.len() + 1 && passes(test, trace, trace.len() as int)
                        && r.0.row == 0 && r.0.col == 0
                }),
    {
        let src = self.buffer();
        let n = src.len();
        let mut accum = Accum::default();
        let ghost mut trace: Seq<Accum> = seq![accum];
        let mut row: usize = 0;
        let mut col: usize = 0;
        let mut k: usize = 0;
        while k < n
            invariant
                n == self@.len(),
                src@ == self@,
                k <= n,
                trace.len() == k + 1,
                trace.last() == accum,
                is_scan(self@, accumulator, trace),
                call_ensures(Accum::default, (), trace[0]),
                passes(test, trace, trace.len() as int),
                row <= col,
                offset(row as nat, col as nat) == k,
                forall|t: &T, a: &Accum| accumulator.requires((t, a)),
                forall|a: &Accum| test.requires((a,)),
            decreases n - k,
        {
            let next = accumulator(&src[k], &accum);
            proof {
                trace = trace.push(next);
            }
            accum = next;
            if !test(&accum) {
                assert(is_scan(self@, accumulator, trace));
                return (IndexPair { row, col }, accum);
            }
            proof {
                lemma_tri_grows(col as nat);
            }
            if row >= col {
                row = 0;
                col = col + 1;
            } else {
                row = row + 1;
            }
            k = k + 1;
        }
        assert(is_scan(self@, accumulator, trace));
        (IndexPair { row: 0, col: 0 }, accum)
    }
}

} // verus!
