//! Construction and resizing of stores whose rank is chosen at run time.
use vstd::prelude::*;
use vstd::std_specs::iter::IteratorSpec;
use crate::algebra::{add_fits, added, lemma_add_commutative, lemma_plus_commutes};
use crate::dimension::DynSquare;
use crate::layout::{
    col_of, is_cell, lemma_offset_bijective, lemma_offset_in_bounds, lemma_rank_below_max,
    lemma_tri_monotone, offset, row_of, tri,
};
use crate::scalar::Scalar;
use crate::upper_tri::UpperTriRawData;

verus! {

/// The `n` values appended by a column push: the first `n` of `vals`,
/// padded with zero when `vals` is shorter.
pub open spec fn pad<T: Scalar>(vals: Seq<T>, n: nat) -> Seq<T> {
    Seq::new(n, |i: int| if i < vals.len() { vals[i] } else { T::spec_zero() })
}

/// The values behind a sequence of references.
pub open spec fn copied<'b, T>(refs: Seq<&'b T>) -> Seq<T> {
    refs.map_values(|x: &'b T| *x)
}

/// Index `x` of the matrix after removing row and column `index` comes from
/// index `skip(x)` before.
pub open spec fn skip(index: nat, x: nat) -> nat {
    if x < index {
        x
    } else {
        x + 1
    }
}

/// The buffer of a rank-`rank` matrix `buf` after `drop_at(index)`: column
/// `index` and row `index + 1` leave. Slot `k` of the result is cell
/// `(row_of(k), col_of(k))`, which comes from cell
/// `(skip(index + 1, row_of(k)), skip(index, col_of(k)))` before.
pub open spec fn dropped<T>(buf: Seq<T>, rank: nat, index: nat) -> Seq<T> {
    Seq::new(
        tri((rank - 1) as nat),
        |k: int|
            buf[offset(skip(index + 1, row_of(k as nat)), skip(index, col_of(k as nat))) as int],
    )
}

/// The cells that `drop_at(index)` hands back, in order: column `index`
/// down to and including the diagonal, then row `index + 1` from column
/// `index + 1` on.
pub open spec fn dropped_cells<T>(buf: Seq<T>, rank: nat, index: nat) -> Seq<T> {
    Seq::new(
        rank,
        |p: int|
            if p <= index {
                buf[offset(p as nat, index) as int]
            } else {
                buf[offset(index + 1, p as nat) as int]
            },
    )
}

/// Number of indices below `x` that survive the removal of `index`.
pub open spec fn unskip(index: nat, x: nat) -> nat {
    if x <= index {
        x
    } else {
        (x - 1) as nat
    }
}

impl<T: Scalar> UpperTriRawData<T, DynSquare> {
    /// A rank-`rank` store with every cell zero.
    pub fn new(rank: usize) -> (r: Self)
        requires
            tri(rank as nat) <= usize::MAX,
        ensures
            r.wf(),
            r.spec_rank() == rank,
            forall|k: int| 0 <= k < r@.len() ==> #[trigger] r@[k] == T::spec_zero(),
    {
        UpperTriRawData::filled(DynSquare::of(rank), T::zero())
    }

    /// Adds `rhs` in place. The result has the larger of the two ranks: the
    /// cells both stores have are summed, and where `rhs` is larger its
    /// further cells (the tail of its buffer) are appended as they are.
    pub fn add_assign(&mut self, rhs: &Self)
        requires
            old(self).wf(),
            rhs.wf(),
            add_fits(old(self)@, rhs@),
        ensures
            final(self).wf(),
            final(self).spec_rank() == if old(self).spec_rank() >= rhs.spec_rank() {
                old(self).spec_rank()
            } else {
                rhs.spec_rank()
            },
            final(self)@ == added(old(self)@, rhs@),
    {
        let ghost start = self@;
        self.add_overlap(rhs);
        let n = self.data_size();
        let m = rhs.data_size();
        let rhs_rank = rhs.rank_usize();
        if self.rank_usize() < rhs_rank {
            proof {
                lemma_tri_monotone(old(self).spec_rank(), rhs.spec_rank());
            }
            let src = rhs.buffer();
            let mut k: usize = n;
            while k < m
                invariant
                    n == start.len(),
                    m == rhs@.len(),
                    n <= k <= m,
                    src@ == rhs@,
                    self@ == added(start, rhs@).take(k as int),
                decreases m - k,
            {
                self.push_slot(src[k]);
                k = k + 1;
                assert(self@ =~= added(start, rhs@).take(k as int));
            }
            assert(added(start, rhs@).take(m as int) =~= added(start, rhs@));
            self.set_rank(rhs_rank);
        } else {
            proof {
                lemma_tri_monotone(rhs.spec_rank(), old(self).spec_rank());
            }
            assert(self@ =~= added(start, rhs@));
        }
    }

    /// The sum of two stores. The result has the larger of the two ranks;
    /// the smaller store counts as zero beyond its own cells, so there the
    /// result holds the larger store's own values.
    pub fn add(&self, rhs: &Self) -> (r: Self)
        requires
            self.wf(),
            rhs.wf(),
            add_fits(self@, rhs@),
        ensures
            r.wf(),
            r.spec_rank() == if self.spec_rank() >= rhs.spec_rank() {
                self.spec_rank()
            } else {
                rhs.spec_rank()
            },
            r@ == added(self@, rhs@),
    {
        if rhs.rank_usize() >= self.rank_usize() {
            let mut out = rhs.duplicate();
            proof {
                lemma_tri_monotone(self.spec_rank(), rhs.spec_rank());
                lemma_add_commutative(self@, rhs@);
            }
            out.add_overlap(self);
            proof {
                assert forall|k: int| 0 <= k < self@.len() implies #[trigger] self@[k].spec_plus(rhs@[k])
                    == rhs@[k].spec_plus(self@[k]) by {
                    lemma_plus_commutes(self@[k], rhs@[k]);
                }
                assert(out@ =~= added(self@, rhs@));
            }
            out
        } else {
            let mut out = self.duplicate();
            proof {
                lemma_tri_monotone(rhs.spec_rank(), self.spec_rank());
            }
            out.add_overlap(rhs);
            assert(out@ =~= added(self@, rhs@));
            out
        }
    }

    /// Appends a final column (and so a final row): its `rank + 1` cells,
    /// rows ascending, are the first values of `vec`, padded with zero when
    /// `vec` is shorter. Existing cells keep their places.
    pub fn push_final_col(&mut self, vec: &[T])
        requires
            old(self).wf(),
            tri(old(self).spec_rank() + 1) <= usize::MAX,
        ensures
            final(self).wf(),
            final(self).spec_rank() == old(self).spec_rank() + 1,
            final(self)@ == old(self)@ + pad(vec@, old(self).spec_rank() + 1),
    {
        let ghost start = self@;
        let ghost col = pad(vec@, self.spec_rank() + 1);
        let n = self.rank_usize() + 1;
        proof {
            lemma_rank_below_max(self.spec_rank() + 1);
        }
        let mut i: usize = 0;
        while i < n
            invariant
                i <= n,
                n == old(self).spec_rank() + 1,
                col == pad(vec@, n as nat),
                start == old(self)@,
                start.len() == tri(old(self).spec_rank()),
                tri(old(self).spec_rank() + 1) <= usize::MAX,
                self.dim() == old(self).dim(),
                self@ == start + col.take(i as int),
            decreases n - i,
        {
            let v = if i < vec.len() {
                vec[i]
            } else {
                T::zero()
            };
            self.push_slot(v);
            assert(self@ =~= start + col.take(i + 1));
            i = i + 1;
        }
        assert(col.take(n as int) =~= col);
        self.grow_rank();
    }

    /// `push_final_col` with the values drawn from `iter`: at most
    /// `rank + 1` are taken, and zero pads the column when `iter` runs out.
    /// For an iterator that keeps the iterator laws, the column holds its
    /// remaining items; in any case the existing cells keep their places.
    pub fn push_final_col_iter_owned<I: Iterator<Item = T>>(&mut self, iter: I)
        requires
            old(self).wf(),
            tri(old(self).spec_rank() + 1) <= usize::MAX,
        ensures
            final(self).wf(),
            final(self).spec_rank() == old(self).spec_rank() + 1,
            final(self)@.subrange(0, old(self)@.len() as int) == old(self)@,
            iter.obeys_prophetic_iter_laws() ==> final(self)@ == old(self)@ + pad(
                iter.remaining(),
                old(self).spec_rank() + 1,
            ),
    {
        let ghost start = self@;
        let ghost items = iter.remaining();
        let ghost laws = iter.obeys_prophetic_iter_laws();
        let mut iter = iter;
        let n = self.rank_usize() + 1;
        proof {
            lemma_rank_below_max(self.spec_rank() + 1);
        }
        let mut i: usize = 0;
        while i < n
            invariant
                i <= n,
                n == old(self).spec_rank() + 1,
                start == old(self)@,
                start.len() == tri(old(self).spec_rank()),
                tri(old(self).spec_rank() + 1) <= usize::MAX,
                self.dim() == old(self).dim(),
                self@.len() == start.len() + i,
                self@.subrange(0, start.len() as int) == start,
                laws == iter.obeys_prophetic_iter_laws(),
                laws ==> iter.remaining() == if i <= items.len() {
                    items.skip(i as int)
                } else {
                    Seq::empty()
                },
                laws ==> self@ == start + pad(items, n as nat).take(i as int),
            decreases n - i,
        {
            let v = match iter.next() {
                Some(x) => x,
                None => T::zero(),
            };
            let ghost before = self@;
            self.push_slot(v);
            assert(self@.subrange(0, start.len() as int) =~= before.subrange(0, start.len() as int));
            assert(laws ==> self@ =~= start + pad(items, n as nat).take(i + 1));
            assert(laws && i + 1 <= items.len() ==> items.skip(i as int).drop_first() =~= items.skip(i + 1));
            i = i + 1;
        }
        assert(laws ==> pad(items, n as nat).take(n as int) =~= pad(items, n as nat));
        self.grow_rank();
    }

    /// `push_final_col_iter_owned` for an iterator of references, whose
    /// values are copied.
    pub fn push_final_col_iter<'b, I: Iterator<Item = &'b T>>(&mut self, iter: I)
        where
            T: 'b,
        requires
            old(self).wf(),
            tri(old(self).spec_rank() + 1) <= usize::MAX,
        ensures
            final(self).wf(),
            final(self).spec_rank() == old(self).spec_rank() + 1,
            final(self)@.subrange(0, old(self)@.len() as int) == old(self)@,
            iter.obeys_prophetic_iter_laws() ==> final(self)@ == old(self)@ + pad(
                copied(iter.remaining()),
                old(self).spec_rank() + 1,
            ),
    {
        let ghost start = self@;
        let ghost refs = iter.remaining();
        let ghost items = copied(refs);
        let ghost laws = iter.obeys_prophetic_iter_laws();
        let mut iter = iter;
        let n = self.rank_usize() + 1;
        proof {
            lemma_rank_below_max(self.spec_rank() + 1);
        }
        let mut i: usize = 0;
        while i < n
            invariant
                i <= n,
                n == old(self).spec_rank() + 1,
                start == old(self)@,
                start.len() == tri(old(self).spec_rank()),
                tri(old(self).spec_rank() + 1) <= usize::MAX,
                self.dim() == old(self).dim(),
                self@.len() == start.len() + i,
                self@.subrange(0, start.len() as int) == start,
                items == copied(refs),
                laws == iter.obeys_prophetic_iter_laws(),
                laws ==> iter.remaining() == if i <= refs.len() {
                    refs.skip(i as int)
                } else {
                    Seq::empty()
                },
                laws ==> self@ == start + pad(items, n as nat).take(i as int),
            decreases n - i,
        {
            let v = match iter.next() {
                Some(x) => *x,
                None => T::zero(),
            };
            let ghost before = self@;
            self.push_slot(v);
            assert(self@.subrange(0, start.len() as int) =~= before.subrange(0, start.len() as int));
            assert(laws && i < refs.len() ==> items[i as int] == *refs[i as int]);
            assert(laws ==> self@ =~= start + pad(items, n as nat).take(i + 1));
            assert(laws && i + 1 <= refs.len() ==> refs.skip(i as int).drop_first() =~= refs.skip(i + 1));
            i = i + 1;
        }
        assert(laws ==> pad(items, n as nat).take(n as int) =~= pad(items, n as nat));
        self.grow_rank();
    }

    /// Shrinks the rank by one: removes column `index`, and from every later
    /// column the cell in row `index + 1`, keeping the order of the rest.
    /// Returns the removed cells: column `index` down to and including the
    /// diagonal, then the row-`index + 1` cells, column by column. When
    /// `index` is the last index this removes exactly the last row and
    /// column. With `index >= rank` nothing changes and nothing is returned.
    pub fn drop_at(&mut self, index: usize) -> (r: Vec<T>)
        requires
            old(self).wf(),
        ensures
            final(self).wf(),
            index >= old(self).spec_rank() ==> r@.len() == 0 && final(self)@ == old(self)@
                && final(self).spec_rank() == old(self).spec_rank(),
            index < old(self).spec_rank() ==> {
                &&& final(self).spec_rank() == old(self).spec_rank() - 1
                &&& r@ == dropped_cells(old(self)@, old(self).spec_rank(), index as nat)
                &&& final(self)@ == dropped(old(self)@, old(self).spec_rank(), index as nat)
                &&& forall|i: nat, j: nat|
                    #![trigger final(self).at(i, j)]
                    is_cell(i, j, final(self).spec_rank()) ==> final(self).at(i, j) == old(
                        self,
                    ).at(skip(index as nat + 1, i), skip(index as nat, j))
            },
    {
        let rank = self.rank_usize();
        if index >= rank {
            return Vec::new();
        }
        let ghost pre = *self;
        let mut removed: Vec<T> = Vec::with_capacity(rank);
        let mut p: usize = 0;
        while p < rank
            invariant
                *self == pre,
                pre.wf(),
                rank == pre.spec_rank(),
                index < rank,
                p <= rank,
                removed@ == dropped_cells(pre@, rank as nat, index as nat).take(p as int),
            decreases rank - p,
        {
            let v = if p <= index {
                *self.get(p, index).unwrap()
            } else {
                *self.get(index + 1, p).unwrap()
            };
            removed.push(v);
            p = p + 1;
            assert(removed@ =~= dropped_cells(pre@, rank as nat, index as nat).take(p as int));
        }
        assert(removed@ =~= dropped_cells(pre@, rank as nat, index as nat));
        let new_rank = rank - 1;
        let ghost gone = index as nat + 1;
        let mut kept: Vec<T> = Vec::new();
        let mut col: usize = 0;
        while col < rank
            invariant
                *self == pre,
                pre.wf(),
                rank == pre.spec_rank(),
                index < rank,
                new_rank == rank - 1,
                gone == index + 1,
                removed@ == dropped_cells(pre@, rank as nat, index as nat),
                col <= rank,
                kept@.len() == tri(unskip(index as nat, col as nat)),
                forall|i: nat, j: nat|
                    #![trigger offset(i, j)]
                    is_cell(i, j, unskip(index as nat, col as nat)) ==> kept@[offset(i, j) as int]
                        == pre.at(skip(gone, i), skip(index as nat, j)),
            decreases rank - col,
        {
            if col != index {
                let ghost nc = unskip(index as nat, col as nat);
                let mut row: usize = 0;
                while row <= col
                    invariant
                        *self == pre,
                        pre.wf(),
                        rank == pre.spec_rank(),
                        index < rank,
                        gone == index + 1,
                        removed@ == dropped_cells(pre@, rank as nat, index as nat),
                        col < rank,
                        col != index,
                        nc == unskip(index as nat, col as nat),
                        skip(index as nat, nc) == col,
                        row <= col + 1,
                        kept@.len() == tri(nc) + unskip(gone, row as nat),
                        forall|i: nat, j: nat|
                            #![trigger offset(i, j)]
                            is_cell(i, j, nc) ==> kept@[offset(i, j) as int] == pre.at(
                                skip(gone, i),
                                skip(index as nat, j),
                            ),
                        forall|i: nat|
                            i < unskip(gone, row as nat) ==> #[trigger] kept@[offset(i, nc) as int]
                                == pre.at(skip(gone, i), col as nat),
                    decreases col + 1 - row,
                {
                    if row != index + 1 {
                        let v = *self.get(row, col).unwrap();
                        let ghost before = kept@;
                        kept.push(v);
                        proof {
                            assert forall|i: nat, j: nat|
                                #![trigger offset(i, j)]
                                is_cell(i, j, nc) implies kept@[offset(i, j) as int] == pre.at(
                                    skip(gone, i),
                                    skip(index as nat, j),
                                ) by {
                                lemma_offset_in_bounds(i, j, nc);
                                assert(before[offset(i, j) as int] == pre.at(
                                    skip(gone, i),
                                    skip(index as nat, j),
                                ));
                            }
                            assert forall|i: nat|
                                i < unskip(gone, (row + 1) as nat) implies #[trigger] kept@[offset(
                                    i,
                                    nc,
                                ) as int] == pre.at(skip(gone, i), col as nat) by {
                                if i < unskip(gone, row as nat) {
                                    assert(before[offset(i, nc) as int] == pre.at(
                                        skip(gone, i),
                                        col as nat,
                                    ));
                                }
                            }
                        }
                    }
                    row = row + 1;
                }
                proof {
                    assert forall|i: nat, j: nat|
                        #![trigger offset(i, j)]
                        is_cell(i, j, nc + 1) implies kept@[offset(i, j) as int] == pre.at(
                            skip(gone, i),
                            skip(index as nat, j),
                        ) by {
                        if j == nc {
                            assert(kept@[offset(i, nc) as int] == pre.at(skip(gone, i), col as nat));
                        }
                    }
                }
            }
            col = col + 1;
        }
        proof {
            lemma_offset_bijective(new_rank as nat);
            assert forall|k: int| 0 <= k < kept@.len() implies kept@[k] == #[trigger] dropped(
                pre@,
                rank as nat,
                index as nat,
            )[k] by {
                let (i, j) = (row_of(k as nat), col_of(k as nat));
                assert(is_cell(i, j, new_rank as nat) && offset(i, j) == k);
            }
            assert(kept@ =~= dropped(pre@, rank as nat, index as nat));
        }
        self.shrink_to(kept);
        removed
    }
}

/// Growing by a column and then removing that same, last, row and column
/// gives back the starting buffer, whatever it held and whatever was pushed.
pub proof fn lemma_push_then_drop<T: Scalar>(buf: Seq<T>, rank: nat, vals: Seq<T>)
    requires
        buf.len() == tri(rank),
    ensures
        dropped(buf + pad(vals, rank + 1), rank + 1, rank) == buf,
{
    let grown = buf + pad(vals, rank + 1);
    lemma_offset_bijective(rank);
    assert forall|k: int| 0 <= k < buf.len() implies #[trigger] dropped(grown, rank + 1, rank)[k]
        == buf[k] by {
        assert(is_cell(row_of(k as nat), col_of(k as nat), rank));
    }
    assert(dropped(grown, rank + 1, rank) =~= buf);
}

/// Adding a store of smaller rank leaves the cells beyond that rank as the
/// larger store has them: the sum has the larger rank, and its cells in the
/// columns `small.rank ..` are those of `large`.
pub proof fn lemma_add_mismatched_ranks<T: Scalar>(
    small: UpperTriRawData<T, DynSquare>,
    large: UpperTriRawData<T, DynSquare>,
)
    requires
        small.wf(),
        large.wf(),
        small.spec_rank() < large.spec_rank(),
    ensures
        added(small@, large@).len() == tri(large.spec_rank()),
        added(large@, small@).len() == tri(large.spec_rank()),
        forall|i: nat, j: nat|
            is_cell(i, j, large.spec_rank()) && j >= small.spec_rank() ==> #[trigger] added(
                small@,
                large@,
            )[offset(i, j) as int] == large.at(i, j) && added(large@, small@)[offset(i, j) as int]
                == large.at(i, j),
{
    lemma_tri_monotone(small.spec_rank(), large.spec_rank());
    assert forall|i: nat, j: nat|
        is_cell(i, j, large.spec_rank()) && j >= small.spec_rank() implies #[trigger] added(
            small@,
            large@,
        )[offset(i, j) as int] == large.at(i, j) && added(large@, small@)[offset(i, j) as int]
            == large.at(i, j) by {
        lemma_tri_monotone(small.spec_rank(), j);
        lemma_offset_in_bounds(i, j, large.spec_rank());
    }
}

} // verus!
