//! Cursors over the four access patterns of a packed store: the part of a
//! column above the diagonal, the part of a row right of the diagonal, the
//! diagonal, and the L-shaped corner through a diagonal cell. Each cursor
//! walks buffer offsets derived from `offset_for_col`; a shared view reads
//! through a borrowed buffer, a mutable view hands out one `&mut` at a time
//! from the store it is given on each step.
use vstd::prelude::*;
use crate::dimension::SquareDimension;
use crate::layout::{lemma_offset_in_bounds, offset, offset_for_col, tri};
use crate::upper_tri::UpperTriRawData;

verus! {

/// Offsets of column `col` strictly above the diagonal, rows ascending.
pub open spec fn col_offsets(col: nat, rank: nat) -> Seq<nat> {
    if col < rank {
        Seq::new(col, |r: int| offset(r as nat, col))
    } else {
        Seq::empty()
    }
}

/// Offsets of row `row` strictly right of the diagonal, columns ascending.
pub open spec fn row_offsets(row: nat, rank: nat) -> Seq<nat> {
    if row < rank {
        Seq::new((rank - row - 1) as nat, |k: int| offset(row, (row + 1 + k) as nat))
    } else {
        Seq::empty()
    }
}

/// Offsets of the diagonal cells, in index order.
pub open spec fn diag_offsets(rank: nat) -> Seq<nat> {
    Seq::new(rank, |i: int| offset(i as nat, i as nat))
}

/// Position `p` of the corner through diagonal cell `d`: the column `d`
/// down to the diagonal, then the row `d` to the right of it.
pub open spec fn corner_offset(d: nat, p: nat) -> nat {
    if p <= d {
        offset(p, d)
    } else {
        offset(d, p)
    }
}

/// Offsets of the corner through diagonal cell `d`.
pub open spec fn corner_offsets(d: nat, rank: nat) -> Seq<nat> {
    if d < rank {
        Seq::new(rank, |p: int| corner_offset(d, p as nat))
    } else {
        Seq::empty()
    }
}

/// The values that `offs` points at in `buf`.
pub open spec fn values_at<T>(buf: Seq<T>, offs: Seq<nat>) -> Seq<T> {
    offs.map_values(|o: nat| buf[o as int])
}

impl<T, D: SquareDimension> UpperTriRawData<T, D> {
    /// Column `col` strictly above the diagonal; empty when `col >= rank`.
    pub open spec fn column(&self, col: nat) -> Seq<T> {
        values_at(self@, col_offsets(col, self.spec_rank()))
    }

    /// Row `row` strictly right of the diagonal; empty when `row >= rank`.
    pub open spec fn row(&self, row: nat) -> Seq<T> {
        values_at(self@, row_offsets(row, self.spec_rank()))
    }

    /// The diagonal.
    pub open spec fn diagonal(&self) -> Seq<T> {
        values_at(self@, diag_offsets(self.spec_rank()))
    }

    /// The corner through diagonal cell `d`; empty when `d >= rank`.
    pub open spec fn corner(&self, d: nat) -> Seq<T> {
        values_at(self@, corner_offsets(d, self.spec_rank()))
    }
}

// ---------------------------------------------------------------- column

pub(crate) struct ColCursor {
    col_num: usize,
    row: usize,
    rank: usize,
    col_offset: usize,
}

impl ColCursor {
    pub(crate) closed spec fn rank(&self) -> nat {
        self.rank as nat
    }

    pub(crate) closed spec fn wf(&self) -> bool {
        &&& tri(self.rank as nat) <= usize::MAX
        &&& self.col_num < self.rank ==> self.col_offset == tri(self.col_num as nat)
        &&& self.row <= self.col_num
    }

    pub(crate) closed spec fn offsets(&self) -> Seq<nat> {
        if self.col_num < self.rank {
            col_offsets(self.col_num as nat, self.rank as nat).skip(self.row as int)
        } else {
            Seq::empty()
        }
    }

    fn new(col: usize, rank: usize) -> (r: Self)
        requires
            tri(rank as nat) <= usize::MAX,
        ensures
            r.wf(),
            r.rank() == rank,
            r.offsets() == col_offsets(col as nat, rank as nat),
    {
        let col_offset: usize = if col < rank {
            proof {
                lemma_offset_in_bounds(0, col as nat, rank as nat);
            }
            offset_for_col(col, 0)
        } else {
            0
        };
        let r = ColCursor { col_num: col, row: 0, rank, col_offset };
        assert(r.offsets() =~= col_offsets(col as nat, rank as nat));
        r
    }

    fn next_offset(&mut self) -> (r: Option<usize>)
        requires
            old(self).wf(),
        ensures
            final(self).wf(),
            final(self).rank() == old(self).rank(),
            old(self).offsets().len() == 0 ==> r is None && final(self).offsets() == old(
                self,
            ).offsets(),
            old(self).offsets().len() > 0 ==> (r matches Some(k) && k as nat == old(
                self,
            ).offsets()[0] && final(self).offsets() == old(self).offsets().drop_first()),
            r matches Some(k) ==> k < tri(old(self).rank()),
    {
        if self.col_num >= self.rank || self.row >= self.col_num {
            None
        } else {
            proof {
                lemma_offset_in_bounds(self.row as nat, self.col_num as nat, self.rank as nat);
            }
            let k = self.col_offset + self.row;
            self.row = self.row + 1;
            assert(self.offsets() =~= old(self).offsets().drop_first());
            Some(k)
        }
    }

    fn len(&self) -> (r: usize)
        requires
            self.wf(),
        ensures
            r == self.offsets().len(),
    {
        if self.col_num >= self.rank {
            0
        } else {
            self.col_num - self.row
        }
    }
}

/// Shared view of a column strictly above the diagonal.
pub struct ColView<'a, T> {
    buf: &'a Vec<T>,
    cur: ColCursor,
}

/// Exclusive view of a column strictly above the diagonal: each step takes
/// the store by `&mut` and hands out the next cell.
pub struct ColViewMut {
    cur: ColCursor,
}

impl<'a, T> ColView<'a, T> {
    pub closed spec fn wf(&self) -> bool {
        self.cur.wf() && self.buf@.len() == tri(self.cur.rank())
    }

    /// The values still to come.
    pub closed spec fn remaining(&self) -> Seq<T> {
        values_at(self.buf@, self.cur.offsets())
    }

    pub fn next(&mut self) -> (r: Option<&'a T>)
        requires
            old(self).wf(),
        ensures
            final(self).wf(),
            old(self).remaining().len() == 0 ==> r is None && final(self).remaining() == old(
                self,
            ).remaining(),
            old(self).remaining().len() > 0 ==> (r matches Some(v) && *v == old(
                self,
            ).remaining()[0] && final(self).remaining() == old(self).remaining().drop_first()),
    {
        match self.cur.next_offset() {
            Some(k) => {
                assert(self.remaining() =~= old(self).remaining().drop_first());
                let b: &'a Vec<T> = self.buf;
                Some(&b[k])
            },
            None => None,
        }
    }

    /// Exact number of values still to come, as `(n, Some(n))`.
    pub fn size_hint(&self) -> (r: (usize, Option<usize>))
        requires
            self.wf(),
        ensures
            r.0 == self.remaining().len() && r.1 == Some(r.0),
    {
        let n = self.cur.len();
        (n, Some(n))
    }
}

impl ColViewMut {
    pub closed spec fn wf(&self) -> bool {
        self.cur.wf()
    }

    pub closed spec fn rank(&self) -> nat {
        self.cur.rank()
    }

    /// Buffer offsets of the cells still to come.
    pub closed spec fn offsets(&self) -> Seq<nat> {
        self.cur.offsets()
    }

    pub fn next<'a, T: Copy, D: SquareDimension>(
        &mut self,
        data: &'a mut UpperTriRawData<T, D>,
    ) -> (r: Option<&'a mut T>)
        requires
            old(self).wf(),
            old(data).wf(),
            old(data).spec_rank() == old(self).rank(),
        ensures
            final(self).wf(),
            final(self).rank() == old(self).rank(),
            old(self).offsets().len() == 0 ==> r is None && *final(data) == *old(data)
                && final(self).offsets() == old(self).offsets(),
            old(self).offsets().len() > 0 ==> r is Some && final(self).offsets() == old(
                self,
            ).offsets().drop_first(),
            r matches Some(v) ==> *v == old(data)@[old(self).offsets()[0] as int],
            r is Some ==> final(data).dim() == old(data).dim() && final(data)@ == old(
                data,
            )@.update(old(self).offsets()[0] as int, *final(r.unwrap())),
    {
        match self.cur.next_offset() {
            Some(k) => Some(data.slot_mut(k)),
            None => None,
        }
    }

    /// Exact number of cells still to come, as `(n, Some(n))`.
    pub fn size_hint(&self) -> (r: (usize, Option<usize>))
        requires
            self.wf(),
        ensures
            r.0 == self.offsets().len() && r.1 == Some(r.0),
    {
        let n = self.cur.len();
        (n, Some(n))
    }
}


// ---------------------------------------------------------------- row

pub(crate) struct RowCursor {
    row_num: usize,
    col: usize,
    rank: usize,
}

impl RowCursor {
    pub(crate) closed spec fn rank(&self) -> nat {
        self.rank as nat
    }

    pub(crate) closed spec fn wf(&self) -> bool {
        &&& tri(self.rank as nat) <= usize::MAX
        &&& self.col <= self.rank
        &&& self.col < self.rank ==> self.row_num < self.col
    }

    pub(crate) closed spec fn offsets(&self) -> Seq<nat> {
        Seq::new(
            (self.rank - self.col) as nat,
            |k: int| offset(self.row_num as nat, (self.col + k) as nat),
        )
    }

    fn new(row: usize, rank: usize) -> (r: Self)
        requires
            tri(rank as nat) <= usize::MAX,
        ensures
            r.wf(),
            r.rank() == rank,
            r.offsets() == row_offsets(row as nat, rank as nat),
    {
        let col = if row < rank {
            row + 1
        } else {
            rank
        };
        let r = RowCursor { row_num: row, col, rank };
        assert(r.offsets() =~= row_offsets(row as nat, rank as nat));
        r
    }

    fn next_offset(&mut self) -> (r: Option<usize>)
        requires
            old(self).wf(),
        ensures
            final(self).wf(),
            final(self).rank() == old(self).rank(),
            old(self).offsets().len() == 0 ==> r is None && final(self).offsets() == old(
                self,
            ).offsets(),
            old(self).offsets().len() > 0 ==> (r matches Some(k) && k as nat == old(
                self,
            ).offsets()[0] && final(self).offsets() == old(self).offsets().drop_first()),
            r matches Some(k) ==> k < tri(old(self).rank()),
    {
        if self.col >= self.rank {
            None
        } else {
            proof {
                lemma_offset_in_bounds(self.row_num as nat, self.col as nat, self.rank as nat);
            }
            let k = offset_for_col(self.col, self.row_num);
            self.col = self.col + 1;
            assert(self.offsets() =~= old(self).offsets().drop_first());
            Some(k)
        }
    }

    fn len(&self) -> (r: usize)
        requires
            self.wf(),
        ensures
            r == self.offsets().len(),
    {
        self.rank - self.col
    }
}

/// Shared view of a row strictly right of the diagonal.
pub struct RowView<'a, T> {
    buf: &'a Vec<T>,
    cur: RowCursor,
}

/// Exclusive view of a row strictly right of the diagonal: each step takes
/// the store by `&mut` and hands out the next cell.
pub struct RowViewMut {
    cur: RowCursor,
}

impl<'a, T> RowView<'a, T> {
    pub closed spec fn wf(&self) -> bool {
        self.cur.wf() && self.buf@.len() == tri(self.cur.rank())
    }

    /// The values still to come.
    pub closed spec fn remaining(&self) -> Seq<T> {
        values_at(self.buf@, self.cur.offsets())
    }

    pub fn next(&mut self) -> (r: Option<&'a T>)
        requires
            old(self).wf(),
        ensures
            final(self).wf(),
            old(self).remaining().len() == 0 ==> r is None && final(self).remaining() == old(
                self,
            ).remaining(),
            old(self).remaining().len() > 0 ==> (r matches Some(v) && *v == old(
                self,
            ).remaining()[0] && final(self).remaining() == old(self).remaining().drop_first()),
    {
        match self.cur.next_offset() {
            Some(k) => {
                assert(self.remaining() =~= old(self).remaining().drop_first());
                let b: &'a Vec<T> = self.buf;
                Some(&b[k])
            },
            None => None,
        }
    }

    /// Exact number of values still to come, as `(n, Some(n))`.
    pub fn size_hint(&self) -> (r: (usize, Option<usize>))
        requires
            self.wf(),
        ensures
            r.0 == self.remaining().len() && r.1 == Some(r.0),
    {
        let n = self.cur.len();
        (n, Some(n))
    }
}

impl RowViewMut {
    pub closed spec fn wf(&self) -> bool {
        self.cur.wf()
    }

    pub closed spec fn rank(&self) -> nat {
        self.cur.rank()
    }

    /// Buffer offsets of the cells still to come.
    pub closed spec fn offsets(&self) -> Seq<nat> {
        self.cur.offsets()
    }

    pub fn next<'a, T: Copy, D: SquareDimension>(
        &mut self,
        data: &'a mut UpperTriRawData<T, D>,
    ) -> (r: Option<&'a mut T>)
        requires
            old(self).wf(),
            old(data).wf(),
            old(data).spec_rank() == old(self).rank(),
        ensures
            final(self).wf(),
            final(self).rank() == old(self).rank(),
            old(self).offsets().len() == 0 ==> r is None && *final(data) == *old(data)
                && final(self).offsets() == old(self).offsets(),
            old(self).offsets().len() > 0 ==> r is Some && final(self).offsets() == old(
                self,
            ).offsets().drop_first(),
            r matches Some(v) ==> *v == old(data)@[old(self).offsets()[0] as int],
            r is Some ==> final(data).dim() == old(data).dim() && final(data)@ == old(
                data,
            )@.update(old(self).offsets()[0] as int, *final(r.unwrap())),
    {
        match self.cur.next_offset() {
            Some(k) => Some(data.slot_mut(k)),
            None => None,
        }
    }

    /// Exact number of cells still to come, as `(n, Some(n))`.
    pub fn size_hint(&self) -> (r: (usize, Option<usize>))
        requires
            self.wf(),
        ensures
            r.0 == self.offsets().len() && r.1 == Some(r.0),
    {
        let n = self.cur.len();
        (n, Some(n))
    }
}


// ---------------------------------------------------------------- diagonal

pub(crate) struct DiagCursor {
    pos: usize,
    rank: usize,
}

impl DiagCursor {
    pub(crate) closed spec fn rank(&self) -> nat {
        self.rank as nat
    }

    pub(crate) closed spec fn wf(&self) -> bool {
        &&& tri(self.rank as nat) <= usize::MAX
        &&& self.pos <= self.rank
    }

    pub(crate) closed spec fn offsets(&self) -> Seq<nat> {
        Seq::new(
            (self.rank - self.pos) as nat,
            |k: int| offset((self.pos + k) as nat, (self.pos + k) as nat),
        )
    }

    fn new(rank: usize) -> (r: Self)
        requires
            tri(rank as nat) <= usize::MAX,
        ensures
            r.wf(),
            r.rank() == rank,
            r.offsets() == diag_offsets(rank as nat),
    {
        let r = DiagCursor { pos: 0, rank };
        assert(r.offsets() =~= diag_offsets(rank as nat));
        r
    }

    fn next_offset(&mut self) -> (r: Option<usize>)
        requires
            old(self).wf(),
        ensures
            final(self).wf(),
            final(self).rank() == old(self).rank(),
            old(self).offsets().len() == 0 ==> r is None && final(self).offsets() == old(
                self,
            ).offsets(),
            old(self).offsets().len() > 0 ==> (r matches Some(k) && k as nat == old(
                self,
            ).offsets()[0] && final(self).offsets() == old(self).offsets().drop_first()),
            r matches Some(k) ==> k < tri(old(self).rank()),
    {
        if self.pos >= self.rank {
            None
        } else {
            proof {
                lemma_offset_in_bounds(self.pos as nat, self.pos as nat, self.rank as nat);
            }
            let k = offset_for_col(self.pos, self.pos);
            self.pos = self.pos + 1;
            assert(self.offsets() =~= old(self).offsets().drop_first());
            Some(k)
        }
    }

    fn len(&self) -> (r: usize)
        requires
            self.wf(),
        ensures
            r == self.offsets().len(),
    {
        self.rank - self.pos
    }
}

/// Shared view of the diagonal.
pub struct DiagView<'a, T> {
    buf: &'a Vec<T>,
    cur: DiagCursor,
}

/// Exclusive view of the diagonal: each step takes
/// the store by `&mut` and hands out the next cell.
pub struct DiagViewMut {
    cur: DiagCursor,
}

impl<'a, T> DiagView<'a, T> {
    pub closed spec fn wf(&self) -> bool {
        self.cur.wf() && self.buf@.len() == tri(self.cur.rank())
    }

    /// The values still to come.
    pub closed spec fn remaining(&self) -> Seq<T> {
        values_at(self.buf@, self.cur.offsets())
    }

    pub fn next(&mut self) -> (r: Option<&'a T>)
        requires
            old(self).wf(),
        ensures
            final(self).wf(),
            old(self).remaining().len() == 0 ==> r is None && final(self).remaining() == old(
                self,
            ).remaining(),
            old(self).remaining().len() > 0 ==> (r matches Some(v) && *v == old(
                self,
            ).remaining()[0] && final(self).remaining() == old(self).remaining().drop_first()),
    {
        match self.cur.next_offset() {
            Some(k) => {
                assert(self.remaining() =~= old(self).remaining().drop_first());
                let b: &'a Vec<T> = self.buf;
                Some(&b[k])
            },
            None => None,
        }
    }

    /// Exact number of values still to come, as `(n, Some(n))`.
    pub fn size_hint(&self) -> (r: (usize, Option<usize>))
        requires
            self.wf(),
        ensures
            r.0 == self.remaining().len() && r.1 == Some(r.0),
    {
        let n = self.cur.len();
        (n, Some(n))
    }
}

impl DiagViewMut {
    pub closed spec fn wf(&self) -> bool {
        self.cur.wf()
    }

    pub closed spec fn rank(&self) -> nat {
        self.cur.rank()
    }

    /// Buffer offsets of the cells still to come.
    pub closed spec fn offsets(&self) -> Seq<nat> {
        self.cur.offsets()
    }

    pub fn next<'a, T: Copy, D: SquareDimension>(
        &mut self,
        data: &'a mut UpperTriRawData<T, D>,
    ) -> (r: Option<&'a mut T>)
        requires
            old(self).wf(),
            old(data).wf(),
            old(data).spec_rank() == old(self).rank(),
        ensures
            final(self).wf(),
            final(self).rank() == old(self).rank(),
            old(self).offsets().len() == 0 ==> r is None && *final(data) == *old(data)
                && final(self).offsets() == old(self).offsets(),
            old(self).offsets().len() > 0 ==> r is Some && final(self).offsets() == old(
                self,
            ).offsets().drop_first(),
            r matches Some(v) ==> *v == old(data)@[old(self).offsets()[0] as int],
            r is Some ==> final(data).dim() == old(data).dim() && final(data)@ == old(
                data,
            )@.update(old(self).offsets()[0] as int, *final(r.unwrap())),
    {
        match self.cur.next_offset() {
            Some(k) => Some(data.slot_mut(k)),
            None => None,
        }
    }

    /// Exact number of cells still to come, as `(n, Some(n))`.
    pub fn size_hint(&self) -> (r: (usize, Option<usize>))
        requires
            self.wf(),
        ensures
            r.0 == self.offsets().len() && r.1 == Some(r.0),
    {
        let n = self.cur.len();
        (n, Some(n))
    }
}


// ---------------------------------------------------------------- corner

pub(crate) struct CornerCursor {
    diagonal_element: usize,
    pos: usize,
    rank: usize,
    col_offset: usize,
}

impl CornerCursor {
    pub(crate) closed spec fn rank(&self) -> nat {
        self.rank as nat
    }

    pub(crate) closed spec fn wf(&self) -> bool {
        &&& tri(self.rank as nat) <= usize::MAX
        &&& self.pos <= self.rank
        &&& self.diagonal_element < self.rank ==> self.col_offset == tri(
            self.diagonal_element as nat,
        )
    }

    pub(crate) closed spec fn offsets(&self) -> Seq<nat> {
        if self.diagonal_element < self.rank {
            corner_offsets(self.diagonal_element as nat, self.rank as nat).skip(self.pos as int)
        } else {
            Seq::empty()
        }
    }

    fn new(diagonal_element: usize, rank: usize) -> (r: Self)
        requires
            tri(rank as nat) <= usize::MAX,
        ensures
            r.wf(),
            r.rank() == rank,
            r.offsets() == corner_offsets(diagonal_element as nat, rank as nat),
    {
        let col_offset: usize = if diagonal_element < rank {
            proof {
                lemma_offset_in_bounds(0, diagonal_element as nat, rank as nat);
            }
            offset_for_col(diagonal_element, 0)
        } else {
            0
        };
        let r = CornerCursor { diagonal_element, pos: 0, rank, col_offset };
        assert(r.offsets() =~= corner_offsets(diagonal_element as nat, rank as nat));
        r
    }

    fn next_offset(&mut self) -> (r: Option<usize>)
        requires
            old(self).wf(),
        ensures
            final(self).wf(),
            final(self).rank() == old(self).rank(),
            old(self).offsets().len() == 0 ==> r is None && final(self).offsets() == old(
                self,
            ).offsets(),
            old(self).offsets().len() > 0 ==> (r matches Some(k) && k as nat == old(
                self,
            ).offsets()[0] && final(self).offsets() == old(self).offsets().drop_first()),
            r matches Some(k) ==> k < tri(old(self).rank()),
    {
        if self.diagonal_element >= self.rank {
            None
        } else if self.pos <= self.diagonal_element {
            proof {
                lemma_offset_in_bounds(
                    self.pos as nat,
                    self.diagonal_element as nat,
                    self.rank as nat,
                );
            }
            let k = self.col_offset + self.pos;
            self.pos = self.pos + 1;
            assert(self.offsets() =~= old(self).offsets().drop_first());
            Some(k)
        } else if self.pos < self.rank {
            proof {
                lemma_offset_in_bounds(
                    self.diagonal_element as nat,
                    self.pos as nat,
                    self.rank as nat,
                );
            }
            let k = offset_for_col(self.pos, self.diagonal_element);
            self.pos = self.pos + 1;
            assert(self.offsets() =~= old(self).offsets().drop_first());
            Some(k)
        } else {
            None
        }
    }

    fn len(&self) -> (r: usize)
        requires
            self.wf(),
        ensures
            r == self.offsets().len(),
    {
        if self.diagonal_element >= self.rank {
            0
        } else {
            self.rank - self.pos
        }
    }
}

/// Shared view of the corner through a diagonal cell.
pub struct CornerView<'a, T> {
    buf: &'a Vec<T>,
    cur: CornerCursor,
}

/// Exclusive view of the corner through a diagonal cell: each step takes
/// the store by `&mut` and hands out the next cell.
pub struct CornerViewMut {
    cur: CornerCursor,
}

impl<'a, T> CornerView<'a, T> {
    pub closed spec fn wf(&self) -> bool {
        self.cur.wf() && self.buf@.len() == tri(self.cur.rank())
    }

    /// The values still to come.
    pub closed spec fn remaining(&self) -> Seq<T> {
        values_at(self.buf@, self.cur.offsets())
    }

    pub fn next(&mut self) -> (r: Option<&'a T>)
        requires
            old(self).wf(),
        ensures
            final(self).wf(),
            old(self).remaining().len() == 0 ==> r is None && final(self).remaining() == old(
                self,
            ).remaining(),
            old(self).remaining().len() > 0 ==> (r matches Some(v) && *v == old(
                self,
            ).remaining()[0] && final(self).remaining() == old(self).remaining().drop_first()),
    {
        match self.cur.next_offset() {
            Some(k) => {
                assert(self.remaining() =~= old(self).remaining().drop_first());
                let b: &'a Vec<T> = self.buf;
                Some(&b[k])
            },
            None => None,
        }
    }

    /// Exact number of values still to come, as `(n, Some(n))`.
    pub fn size_hint(&self) -> (r: (usize, Option<usize>))
        requires
            self.wf(),
        ensures
            r.0 == self.remaining().len() && r.1 == Some(r.0),
    {
        let n = self.cur.len();
        (n, Some(n))
    }
}

impl CornerViewMut {
    pub closed spec fn wf(&self) -> bool {
        self.cur.wf()
    }

    pub closed spec fn rank(&self) -> nat {
        self.cur.rank()
    }

    /// Buffer offsets of the cells still to come.
    pub closed spec fn offsets(&self) -> Seq<nat> {
        self.cur.offsets()
    }

    pub fn next<'a, T: Copy, D: SquareDimension>(
        &mut self,
        data: &'a mut UpperTriRawData<T, D>,
    ) -> (r: Option<&'a mut T>)
        requires
            old(self).wf(),
            old(data).wf(),
            old(data).spec_rank() == old(self).rank(),
        ensures
            final(self).wf(),
            final(self).rank() == old(self).rank(),
            old(self).offsets().len() == 0 ==> r is None && *final(data) == *old(data)
                && final(self).offsets() == old(self).offsets(),
            old(self).offsets().len() > 0 ==> r is Some && final(self).offsets() == old(
                self,
            ).offsets().drop_first(),
            r matches Some(v) ==> *v == old(data)@[old(self).offsets()[0] as int],
            r is Some ==> final(data).dim() == old(data).dim() && final(data)@ == old(
                data,
            )@.update(old(self).offsets()[0] as int, *final(r.unwrap())),
    {
        match self.cur.next_offset() {
            Some(k) => Some(data.slot_mut(k)),
            None => None,
        }
    }

    /// Exact number of cells still to come, as `(n, Some(n))`.
    pub fn size_hint(&self) -> (r: (usize, Option<usize>))
        requires
            self.wf(),
        ensures
            r.0 == self.offsets().len() && r.1 == Some(r.0),
    {
        let n = self.cur.len();
        (n, Some(n))
    }
}

impl<T, D: SquareDimension> UpperTriRawData<T, D> {
    /// The column `col` strictly above the diagonal: `col` cells when
    /// `col < rank`, none otherwise.
    pub fn get_raw_col(&self, col: usize) -> (r: ColView<'_, T>)
        requires
            self.wf(),
        ensures
            r.wf(),
            r.remaining() == self.column(col as nat),
            r.remaining().len() == if col < self.spec_rank() { col as nat } else { 0 },
    {
        proof {
            self.lemma_tri_rank_fits();
        }
        ColView { buf: self.buffer(), cur: ColCursor::new(col, self.rank_usize()) }
    }

    /// Exclusive counterpart of `get_raw_col`.
    pub fn get_raw_col_mut(&self, col: usize) -> (r: ColViewMut)
        requires
            self.wf(),
        ensures
            r.wf(),
            r.rank() == self.spec_rank(),
            r.offsets() == col_offsets(col as nat, self.spec_rank()),
            r.offsets().len() == if col < self.spec_rank() { col as nat } else { 0 },
    {
        proof {
            self.lemma_tri_rank_fits();
        }
        ColViewMut { cur: ColCursor::new(col, self.rank_usize()) }
    }
    /// The row `row` strictly right of the diagonal: `rank - row - 1` cells
    /// when `row < rank`, none otherwise.
    pub fn get_raw_row(&self, row: usize) -> (r: RowView<'_, T>)
        requires
            self.wf(),
        ensures
            r.wf(),
            r.remaining() == self.row(row as nat),
            r.remaining().len() == if row < self.spec_rank() {
                (self.spec_rank() - row - 1) as nat
            } else {
                0
            },
    {
        proof {
            self.lemma_tri_rank_fits();
        }
        RowView { buf: self.buffer(), cur: RowCursor::new(row, self.rank_usize()) }
    }

    /// Exclusive counterpart of `get_raw_row`.
    pub fn get_raw_row_mut(&self, row: usize) -> (r: RowViewMut)
        requires
            self.wf(),
        ensures
            r.wf(),
            r.rank() == self.spec_rank(),
            r.offsets() == row_offsets(row as nat, self.spec_rank()),
            r.offsets().len() == if row < self.spec_rank() {
                (self.spec_rank() - row - 1) as nat
            } else {
                0
            },
    {
        proof {
            self.lemma_tri_rank_fits();
        }
        RowViewMut { cur: RowCursor::new(row, self.rank_usize()) }
    }

    /// The corner through diagonal cell `d`: column `d` down to and including
    /// the diagonal, then row `d` to the right of it; `rank` cells when
    /// `d < rank`, none otherwise.
    pub fn get_corner(&self, diagonal_element: usize) -> (r: CornerView<'_, T>)
        requires
            self.wf(),
        ensures
            r.wf(),
            r.remaining() == self.corner(diagonal_element as nat),
            r.remaining().len() == if diagonal_element < self.spec_rank() {
                self.spec_rank()
            } else {
                0
            },
    {
        proof {
            self.lemma_tri_rank_fits();
        }
        CornerView { buf: self.buffer(), cur: CornerCursor::new(diagonal_element, self.rank_usize()) }
    }

    /// Exclusive counterpart of `get_corner`.
    pub fn get_corner_mut(&self, diagonal_element: usize) -> (r: CornerViewMut)
        requires
            self.wf(),
        ensures
            r.wf(),
            r.rank() == self.spec_rank(),
            r.offsets() == corner_offsets(diagonal_element as nat, self.spec_rank()),
            r.offsets().len() == if diagonal_element < self.spec_rank() {
                self.spec_rank()
            } else {
                0
            },
    {
        proof {
            self.lemma_tri_rank_fits();
        }
        CornerViewMut { cur: CornerCursor::new(diagonal_element, self.rank_usize()) }
    }

    /// The `rank` diagonal cells in index order.
    pub fn get_diag(&self) -> (r: DiagView<'_, T>)
        requires
            self.wf(),
        ensures
            r.wf(),
            r.remaining() == self.diagonal(),
            r.remaining().len() == self.spec_rank(),
    {
        proof {
            self.lemma_tri_rank_fits();
        }
        DiagView { buf: self.buffer(), cur: DiagCursor::new(self.rank_usize()) }
    }

    /// Exclusive counterpart of `get_diag`.
    pub fn get_diag_mut(&self) -> (r: DiagViewMut)
        requires
            self.wf(),
        ensures
            r.wf(),
            r.rank() == self.spec_rank(),
            r.offsets() == diag_offsets(self.spec_rank()),
            r.offsets().len() == self.spec_rank(),
    {
        proof {
            self.lemma_tri_rank_fits();
        }
        DiagViewMut { cur: DiagCursor::new(self.rank_usize()) }
    }
}

} // verus!
