//! Offset arithmetic: the one place that says where cell `(row, col)`,
//! `row <= col`, lives in the packed buffer.
use vstd::prelude::*;

verus! {

/// Number of cells stored for the first `n` columns: `0 + 1 + ... + n`.
pub open spec fn tri(n: nat) -> nat
    decreases n,
{
    if n == 0 {
        0
    } else {
        tri((n - 1) as nat) + n
    }
}

/// Buffer offset of cell `(row, col)`: column `col` starts after the
/// `tri(col)` cells of the columns before it.
pub open spec fn offset(row: nat, col: nat) -> nat {
    tri(col) + row
}

/// A cell of a rank-`rank` upper-triangular matrix.
pub open spec fn is_cell(row: nat, col: nat, rank: nat) -> bool {
    row <= col && col < rank
}

pub proof fn lemma_tri_closed(n: nat)
    ensures
        2 * tri(n) == n * (n + 1),
    decreases n,
{
    if n > 0 {
        lemma_tri_closed((n - 1) as nat);
        assert(2 * tri(n) == (n - 1) * n + 2 * n) by (nonlinear_arith)
            requires
                2 * tri((n - 1) as nat) == (n - 1) * ((n - 1) + 1),
                tri(n) == tri((n - 1) as nat) + n,
        ;
        assert((n - 1) * n + 2 * n == n * (n + 1)) by (nonlinear_arith);
    } else {
        assert(n * (n + 1) == 0) by (nonlinear_arith)
            requires
                n == 0,
        ;
    }
}

pub proof fn lemma_tri_monotone(a: nat, b: nat)
    requires
        a <= b,
    ensures
        tri(a) <= tri(b),
    decreases b,
{
    if a < b {
        lemma_tri_monotone(a, (b - 1) as nat);
    }
}

pub proof fn lemma_tri_grows(n: nat)
    ensures
        tri(n) >= n,
        n >= 2 ==> tri(n) > n,
    decreases n,
{
    if n > 0 {
        lemma_tri_grows((n - 1) as nat);
    }
}

/// A rank whose buffer length fits in `usize` leaves room to add one to it.
pub proof fn lemma_rank_below_max(n: nat)
    requires
        tri(n) <= usize::MAX,
    ensures
        n < usize::MAX,
{
    lemma_tri_grows(n);
}

/// Every cell of a rank-`rank` matrix lies inside the first `tri(rank)` slots.
pub proof fn lemma_offset_in_bounds(row: nat, col: nat, rank: nat)
    requires
        is_cell(row, col, rank),
    ensures
        offset(row, col) < tri(rank),
        offset(row, col) < tri(col + 1),
{
    lemma_tri_monotone(col + 1, rank);
}

/// The column and row of buffer slot `k`.
pub open spec fn col_of(k: nat) -> nat {
    choose|c: nat| #[trigger] tri(c) <= k < tri(c + 1)
}

pub open spec fn row_of(k: nat) -> nat {
    (k - tri(col_of(k))) as nat
}

proof fn lemma_slot_has_column(k: nat, n: nat)
    requires
        k < tri(n),
    ensures
        exists|c: nat| c < n && #[trigger] tri(c) <= k < tri(c + 1),
    decreases n,
{
    if k < tri((n - 1) as nat) {
        lemma_slot_has_column(k, (n - 1) as nat);
        let c = choose|c: nat| c < (n - 1) as nat && #[trigger] tri(c) <= k < tri(c + 1);
        assert(c < n && tri(c) <= k < tri(c + 1));
    } else {
        assert(tri((n - 1) as nat) <= k < tri(((n - 1) as nat + 1) as nat));
    }
}

/// Two cells with the same offset are the same cell.
pub proof fn lemma_offset_injective(r1: nat, c1: nat, r2: nat, c2: nat)
    requires
        r1 <= c1,
        r2 <= c2,
        offset(r1, c1) == offset(r2, c2),
    ensures
        r1 == r2,
        c1 == c2,
{
    if c1 < c2 {
        lemma_tri_monotone(c1 + 1, c2);
    } else if c2 < c1 {
        lemma_tri_monotone(c2 + 1, c1);
    }
}

/// For every rank, `offset` maps the cells of the matrix one to one onto the
/// slots `0 .. tri(rank)` of the buffer: distinct cells get distinct slots,
/// and every slot belongs to a cell, namely `(row_of(k), col_of(k))`.
pub proof fn lemma_offset_bijective(rank: nat)
    ensures
        forall|row: nat, col: nat|
            #![trigger offset(row, col)]
            is_cell(row, col, rank) ==> offset(row, col) < tri(rank),
        forall|r1: nat, c1: nat, r2: nat, c2: nat|
            #![trigger offset(r1, c1), offset(r2, c2)]
            is_cell(r1, c1, rank) && is_cell(r2, c2, rank) && offset(r1, c1) == offset(r2, c2)
                ==> r1 == r2 && c1 == c2,
        forall|k: nat|
            #![trigger col_of(k)]
            k < tri(rank) ==> is_cell(row_of(k), col_of(k), rank) && offset(row_of(k), col_of(k))
                == k,
{
    assert forall|row: nat, col: nat|
        #![trigger offset(row, col)]
        is_cell(row, col, rank) implies offset(row, col) < tri(rank) by {
        lemma_offset_in_bounds(row, col, rank);
    }
    assert forall|r1: nat, c1: nat, r2: nat, c2: nat|
        #![trigger offset(r1, c1), offset(r2, c2)]
        is_cell(r1, c1, rank) && is_cell(r2, c2, rank) && offset(r1, c1) == offset(r2, c2)
        implies r1 == r2 && c1 == c2 by {
        lemma_offset_injective(r1, c1, r2, c2);
    }
    assert forall|k: nat| #![trigger col_of(k)] k < tri(rank) implies is_cell(
        row_of(k),
        col_of(k),
        rank,
    ) && offset(row_of(k), col_of(k)) == k by {
        lemma_slot_has_column(k, rank);
        let c = col_of(k);
        assert(tri(c) <= k < tri(c + 1));
        if c >= rank {
            lemma_tri_monotone(rank, c);
        }
    }
}

/// `col * (col + 1) / 2 + row`, computed without an intermediate overflow.
pub fn offset_for_col(col: usize, row: usize) -> (r: usize)
    requires
        offset(row as nat, col as nat) <= usize::MAX,
        col < usize::MAX,
    ensures
        r as nat == offset(row as nat, col as nat),
{
    proof {
        lemma_tri_closed(col as nat);
    }
    let col_offset: usize;
    if col % 2 == 0 {
        let h: usize = col / 2;
        assert(h * (col + 1) == tri(col as nat)) by (nonlinear_arith)
            requires
                2 * tri(col as nat) == col * (col + 1),
                col == 2 * h,
        ;
        col_offset = h * (col + 1);
    } else {
        let h: usize = (col + 1) / 2;
        assert(col * h == tri(col as nat)) by (nonlinear_arith)
            requires
                2 * tri(col as nat) == col * (col + 1),
                col + 1 == 2 * h,
        ;
        col_offset = col * h;
    }
    col_offset + row
}

} // verus!
