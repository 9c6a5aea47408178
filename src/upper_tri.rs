//! The packed store and its element accessors.
use vstd::prelude::*;
pub use crate::views::{
    ColView, ColViewMut, CornerView, CornerViewMut, DiagView, DiagViewMut, RowView, RowViewMut,
};
use crate::dimension::{DynSquare, SquareDimension};
use crate::layout::{
    is_cell, lemma_offset_in_bounds, lemma_offset_injective, lemma_rank_below_max,
    lemma_tri_closed, lemma_tri_grows, offset, offset_for_col, tri,
};

verus! {

/// An upper-triangular square matrix of rank `rank`, holding the
/// `rank * (rank + 1) / 2` cells on or above the diagonal in one buffer:
/// column after column, rows ascending within a column.
#[derive(Clone)]
pub struct UpperTriRawData<T, D: SquareDimension> {
    pub(crate) buf: Vec<T>,
    pub rank: D,
}

/// A cell coordinate with `row <= col`.
#[derive(Clone, Copy, PartialEq, Eq, Structural)]
pub struct IndexPair {
    pub row: usize,
    pub col: usize,
}

impl<T, D: SquareDimension> View for UpperTriRawData<T, D> {
    type V = Seq<T>;

    /// The packed buffer.
    closed spec fn view(&self) -> Seq<T> {
        self.buf@
    }
}

impl<T, D: SquareDimension> UpperTriRawData<T, D> {
    /// The dimension value that the store carries.
    pub closed spec fn dim(&self) -> D {
        self.rank
    }

    pub open spec fn spec_rank(&self) -> nat {
        self.dim().spec_rank()
    }

    /// The buffer holds exactly one slot per cell.
    pub open spec fn wf(&self) -> bool {
        self@.len() == tri(self.spec_rank())
    }

    /// The value of cell `(row, col)`, for `row <= col < rank`.
    pub open spec fn at(&self, row: nat, col: nat) -> T {
        self@[offset(row, col) as int]
    }

    pub(crate) proof fn lemma_cell_in_buffer(&self, row: nat, col: nat)
        requires
            self.wf(),
            is_cell(row, col, self.spec_rank()),
        ensures
            offset(row, col) < self@.len(),
            col < usize::MAX,
    {
        lemma_offset_in_bounds(row, col, self.spec_rank());
        self.dim().lemma_rank_fits();
    }

    /// Number of stored cells, `rank * (rank + 1) / 2`.
    pub fn data_size(&self) -> (r: usize)
        requires
            self.wf(),
        ensures
            r as nat == tri(self.spec_rank()),
    {
        self.buf.len()
    }

    fn get_offset(&self, row: usize, col: usize) -> (r: Option<usize>)
        requires
            self.wf(),
        ensures
            r is Some <==> is_cell(row as nat, col as nat, self.spec_rank()),
            r matches Some(k) ==> k as nat == offset(row as nat, col as nat) && k < self@.len(),
    {
        let rank = self.rank.to_usize();
        proof {
            self.lemma_tri_rank_fits();
        }
        if row > col || col >= rank || row >= rank {
            None
        } else {
            proof {
                self.lemma_cell_in_buffer(row as nat, col as nat);
            }
            Some(offset_for_col(col, row))
        }
    }

    /// The cell `(row, col)`, or `None` unless `row <= col < rank`.
    pub fn get(&self, row: usize, col: usize) -> (r: Option<&T>)
        requires
            self.wf(),
        ensures
            r is Some <==> is_cell(row as nat, col as nat, self.spec_rank()),
            r matches Some(v) ==> *v == self.at(row as nat, col as nat),
    {
        match self.get_offset(row, col) {
            Some(k) => Some(&self.buf[k]),
            None => None,
        }
    }

    /// Write access to cell `(row, col)`, or `None` unless `row <= col < rank`.
    /// Whatever is written lands in that cell and nowhere else.
    pub fn get_mut(&mut self, row: usize, col: usize) -> (r: Option<&mut T>)
        requires
            old(self).wf(),
        ensures
            r is Some <==> is_cell(row as nat, col as nat, old(self).spec_rank()),
            r is None ==> *final(self) == *old(self),
            r matches Some(v) ==> *v == old(self).at(row as nat, col as nat),
            r is Some ==> final(self).dim() == old(self).dim() && final(self)@ == old(self)@.update(
                offset(row as nat, col as nat) as int,
                *final(r.unwrap()),
            ),
    {
        match self.get_offset(row, col) {
            Some(k) => Some(&mut self.buf[k]),
            None => None,
        }
    }

    /// The diagonal cell `(index, index)`, or `None` when `index >= rank`.
    pub fn get_diag_el(&self, index: usize) -> (r: Option<&T>)
        requires
            self.wf(),
        ensures
            r is Some <==> index < self.spec_rank(),
            r matches Some(v) ==> *v == self.at(index as nat, index as nat),
    {
        self.get(index, index)
    }

    /// Write access to the diagonal cell `(index, index)`.
    pub fn get_diag_el_mut(&mut self, index: usize) -> (r: Option<&mut T>)
        requires
            old(self).wf(),
        ensures
            r is Some <==> index < old(self).spec_rank(),
            r is None ==> *final(self) == *old(self),
            r matches Some(v) ==> *v == old(self).at(index as nat, index as nat),
            r is Some ==> final(self).dim() == old(self).dim() && final(self)@ == old(self)@.update(
                offset(index as nat, index as nat) as int,
                *final(r.unwrap()),
            ),
    {
        self.get_mut(index, index)
    }

    /// Write access to buffer slot `k`.
    pub(crate) fn slot_mut(&mut self, k: usize) -> (r: &mut T)
        requires
            k < old(self)@.len(),
        ensures
            *r == old(self)@[k as int],
            final(self).dim() == old(self).dim(),
            final(self)@ == old(self)@.update(k as int, *final(r)),
    {
        &mut self.buf[k]
    }

    pub(crate) proof fn lemma_tri_rank_fits(&self)
        requires
            self.wf(),
        ensures
            tri(self.spec_rank()) <= usize::MAX,
            self.spec_rank() <= usize::MAX,
    {
        self.dim().lemma_rank_fits();
        assert(self.buf@.len() == self.buf.len());
    }

    pub(crate) fn from_parts(buf: Vec<T>, rank: D) -> (r: Self)
        ensures
            r@ == buf@,
            r.dim() == rank,
    {
        UpperTriRawData { buf, rank }
    }

    /// Appends `v` to the buffer.
    pub(crate) fn push_slot(&mut self, v: T)
        ensures
            final(self)@ == old(self)@.push(v),
            final(self).dim() == old(self).dim(),
    {
        self.buf.push(v);
    }

    /// A store of dimension `rank` whose every cell holds `t`.
    pub(crate) fn filled(rank: D, t: T) -> (r: Self)
        where
            T: Copy,
        requires
            tri(rank.spec_rank()) <= usize::MAX,
        ensures
            r.wf(),
            r.dim() == rank,
            forall|k: int| 0 <= k < r@.len() ==> #[trigger] r@[k] == t,
    {
        let n = rank.to_usize();
        proof {
            lemma_rank_below_max(n as nat);
        }
        let len = offset_for_col(n, 0);
        let mut buf: Vec<T> = Vec::with_capacity(len);
        let mut i: usize = 0;
        while i < len
            invariant
                i <= len,
                len == tri(rank.spec_rank()),
                buf@.len() == i,
                forall|k: int| 0 <= k < i ==> #[trigger] buf@[k] == t,
            decreases len - i,
        {
            buf.push(t);
            i = i + 1;
        }
        UpperTriRawData { buf, rank }
    }

    /// A store with the same rank and a copy of the buffer.
    pub(crate) fn duplicate(&self) -> (r: Self)
        where
            T: Copy,
        ensures
            r@ == self@,
            r.dim() == self.dim(),
    {
        let mut buf: Vec<T> = Vec::with_capacity(self.buf.len());
        let mut k: usize = 0;
        while k < self.buf.len()
            invariant
                k <= self.buf@.len(),
                buf@ == self.buf@.take(k as int),
            decreases self.buf@.len() - k,
        {
            buf.push(self.buf[k]);
            k = k + 1;
            assert(buf@ =~= self.buf@.take(k as int));
        }
        assert(self.buf@.take(k as int) =~= self.buf@);
        UpperTriRawData { buf, rank: self.rank }
    }

    /// The packed buffer itself.
    pub(crate) fn buffer(&self) -> (r: &Vec<T>)
        ensures
            r@ == self@,
    {
        &self.buf
    }

    pub(crate) fn dimension(&self) -> (r: D)
        ensures
            r == self.dim(),
    {
        self.rank
    }

    /// Whether the buffer holds exactly one slot per cell of the rank.
    pub fn is_wf(&self) -> (r: bool)
        ensures
            r == self.wf(),
    {
        let n = self.rank.to_usize();
        let len = self.buf.len();
        proof {
            lemma_tri_closed(n as nat);
            lemma_tri_grows(n as nat);
        }
        if n == usize::MAX {
            return false;
        }
        let (h, m): (usize, usize) = if n % 2 == 0 {
            (n / 2, n + 1)
        } else {
            (n, (n + 1) / 2)
        };
        assert(h * m == tri(n as nat)) by (nonlinear_arith)
            requires
                2 * tri(n as nat) == n * (n + 1),
                (n % 2 == 0 && h == n / 2 && m == n + 1) || (n % 2 == 1 && h == n && m == (n + 1)
                    / 2),
        ;
        match h.checked_mul(m) {
            Some(t) => len == t,
            None => false,
        }
    }

    /// The rank, as stated by `spec_rank`.
    pub fn rank_usize(&self) -> (r: usize)
        ensures
            r as nat == self.spec_rank(),
    {
        self.rank.to_usize()
    }
}

impl<T: Copy> UpperTriRawData<T, DynSquare> {
    pub(crate) fn grow_rank(&mut self)
        requires
            old(self).spec_rank() < usize::MAX,
        ensures
            final(self).spec_rank() == old(self).spec_rank() + 1,
            final(self)@ == old(self)@,
    {
        self.rank.grow();
    }

    /// Sets the rank, keeping the buffer.
    pub(crate) fn set_rank(&mut self, rank: usize)
        ensures
            final(self)@ == old(self)@,
            final(self).spec_rank() == rank,
    {
        self.rank = DynSquare::of(rank);
    }

    /// Installs `buf`, the buffer of the matrix one rank smaller.
    pub(crate) fn shrink_to(&mut self, buf: Vec<T>)
        ensures
            final(self)@ == buf@,
            final(self).spec_rank() == if old(self).spec_rank() > 0 {
                (old(self).spec_rank() - 1) as nat
            } else {
                0
            },
    {
        self.buf = buf;
        self.rank.shrink();
    }
}

/// A write through `get_mut` at cell `(row, col)` is what a later `get` of
/// that cell returns, and every other cell keeps its value.
pub proof fn lemma_read_after_write<T>(
    buf: Seq<T>,
    rank: nat,
    row: nat,
    col: nat,
    v: T,
    r2: nat,
    c2: nat,
)
    requires
        buf.len() == tri(rank),
        is_cell(row, col, rank),
        is_cell(r2, c2, rank),
    ensures
        buf.update(offset(row, col) as int, v)[offset(r2, c2) as int] == if row == r2 && col == c2 {
            v
        } else {
            buf[offset(r2, c2) as int]
        },
{
    lemma_offset_in_bounds(row, col, rank);
    lemma_offset_in_bounds(r2, c2, rank);
    if offset(row, col) == offset(r2, c2) {
        lemma_offset_injective(row, col, r2, c2);
    }
}

} // verus!
