use vstd::prelude::*;

verus! {

/// The rank (number of rows and columns) of a square upper-triangular matrix.
pub trait SquareDimension: Copy {
    /// The rank as a mathematical number.
    spec fn spec_rank(&self) -> nat;

    proof fn lemma_rank_fits(&self)
        ensures
            self.spec_rank() <= usize::MAX,
    ;

    fn to_usize(&self) -> (r: usize)
        ensures
            r as nat == self.spec_rank(),
    ;
}

/// A rank chosen at run time; matrices of this dimension can grow and shrink.
#[derive(Clone, Copy, PartialEq, Eq, Structural)]
pub struct DynSquare(pub(crate) usize);

impl SquareDimension for DynSquare {
    closed spec fn spec_rank(&self) -> nat {
        self.0 as nat
    }

    proof fn lemma_rank_fits(&self) {
    }

    fn to_usize(&self) -> (r: usize) {
        self.0
    }
}

impl DynSquare {
    pub(crate) fn of(rank: usize) -> (r: Self)
        ensures
            r.spec_rank() == rank,
    {
        DynSquare(rank)
    }

    pub(crate) fn grow(&mut self)
        requires
            old(self).spec_rank() < usize::MAX,
        ensures
            final(self).spec_rank() == old(self).spec_rank() + 1,
    {
        self.0 = self.0 + 1;
    }

    /// Decrements the rank, staying at zero when it already is zero.
    pub(crate) fn shrink(&mut self)
        ensures
            final(self).spec_rank() == if old(self).spec_rank() > 0 {
                (old(self).spec_rank() - 1) as nat
            } else {
                0
            },
    {
        if self.0 > 0 {
            self.0 = self.0 - 1;
        }
    }
}

/// A rank fixed at compile time by the parameter `N`.
#[derive(Clone, Copy)]
pub struct StcSquare<const N: usize>;

impl<const N: usize> SquareDimension for StcSquare<N> {
    open spec fn spec_rank(&self) -> nat {
        N as nat
    }

    proof fn lemma_rank_fits(&self) {
    }

    fn to_usize(&self) -> (r: usize) {
        N
    }
}

} // verus!
