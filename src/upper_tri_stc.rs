//! Stores whose rank is the compile-time constant `N`.
use vstd::prelude::*;
use crate::algebra::{add_fits, added};
use crate::dimension::StcSquare;
use crate::layout::tri;
use crate::scalar::Scalar;
use crate::upper_tri::UpperTriRawData;

verus! {

impl<T: Scalar, const N: usize> UpperTriRawData<T, StcSquare<N>> {
    /// A rank-`N` store with every cell zero.
    pub fn new() -> (r: Self)
        requires
            tri(N as nat) <= usize::MAX,
        ensures
            r.wf(),
            r.spec_rank() == N,
            forall|k: int| 0 <= k < r@.len() ==> #[trigger] r@[k] == T::spec_zero(),
    {
        UpperTriRawData::filled(StcSquare, T::zero())
    }

    /// Adds `rhs` cell by cell; both stores have rank `N`.
    pub fn add_assign(&mut self, rhs: &Self)
        requires
            old(self).wf(),
            rhs.wf(),
            add_fits(old(self)@, rhs@),
        ensures
            final(self).wf(),
            final(self).spec_rank() == N,
            final(self)@ == added(old(self)@, rhs@),
    {
        self.add_overlap(rhs);
        assert(self@ =~= added(old(self)@, rhs@));
    }

    /// The sum of two rank-`N` stores, cell by cell.
    pub fn add(&self, rhs: &Self) -> (r: Self)
        requires
            self.wf(),
            rhs.wf(),
            add_fits(self@, rhs@),
        ensures
            r.wf(),
            r@ == added(self@, rhs@),
    {
        let mut out = self.duplicate();
        out.add_overlap(rhs);
        assert(out@ =~= added(self@, rhs@));
        out
    }
}

impl<T: Copy, const N: usize> UpperTriRawData<T, StcSquare<N>> {
    /// A rank-`N` store with every cell `t`.
    pub fn new_with(t: T) -> (r: Self)
        requires
            tri(N as nat) <= usize::MAX,
        ensures
            r.wf(),
            r.spec_rank() == N,
            forall|k: int| 0 <= k < r@.len() ==> #[trigger] r@[k] == t,
    {
        UpperTriRawData::filled(StcSquare, t)
    }
}

} // verus!
