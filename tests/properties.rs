use upper_tri::dimension::{DynSquare, SquareDimension, StcSquare};
use upper_tri::layout::offset_for_col;
use upper_tri::scalar::Scalar;
use upper_tri::upper_tri::{ColView, CornerView, DiagView, RowView, UpperTriRawData};

fn col_values<T: Copy>(mut view: ColView<'_, T>) -> Vec<T> {
    let mut out = Vec::new();
    while let Some(x) = view.next() {
        out.push(*x);
    }
    out
}

fn row_values<T: Copy>(mut view: RowView<'_, T>) -> Vec<T> {
    let mut out = Vec::new();
    while let Some(x) = view.next() {
        out.push(*x);
    }
    out
}

fn diag_values<T: Copy>(mut view: DiagView<'_, T>) -> Vec<T> {
    let mut out = Vec::new();
    while let Some(x) = view.next() {
        out.push(*x);
    }
    out
}

fn corner_values<T: Copy>(mut view: CornerView<'_, T>) -> Vec<T> {
    let mut out = Vec::new();
    while let Some(x) = view.next() {
        out.push(*x);
    }
    out
}

/// A rank-`rank` store whose cell `(row, col)` holds `100 * row + col`.
fn numbered(rank: usize) -> UpperTriRawData<i64, DynSquare> {
    let mut m = UpperTriRawData::<i64, DynSquare>::new(0);
    for col in 0..rank {
        let vals: Vec<i64> = (0..=col).map(|row| (100 * row + col) as i64).collect();
        m.push_final_col(&vals);
    }
    m
}

fn all_cells(m: &UpperTriRawData<i64, DynSquare>) -> Vec<i64> {
    let rank = m.rank.to_usize();
    let mut out = Vec::new();
    for col in 0..rank {
        for row in 0..=col {
            out.push(*m.get(row, col).unwrap());
        }
    }
    out
}

#[test]
fn offsets_follow_column_packing() {
    assert_eq!(offset_for_col(0, 0), 0);
    assert_eq!(offset_for_col(1, 0), 1);
    assert_eq!(offset_for_col(1, 1), 2);
    assert_eq!(offset_for_col(2, 0), 3);
    assert_eq!(offset_for_col(4, 3), 13);
    assert_eq!(offset_for_col(10, 5), 60);
    let mut seen = vec![false; 21];
    for col in 0..6 {
        for row in 0..=col {
            let k = offset_for_col(col, row);
            assert!(!seen[k]);
            seen[k] = true;
        }
    }
    assert!(seen.iter().all(|b| *b));
}

#[test]
fn get_reads_back_last_write() {
    let mut m = UpperTriRawData::<i32, DynSquare>::new(4);
    *m.get_mut(1, 3).unwrap() = 7;
    *m.get_mut(1, 3).unwrap() = 9;
    *m.get_diag_el_mut(2).unwrap() = -4;
    assert_eq!(m.get(1, 3), Some(&9));
    assert_eq!(m.get_diag_el(2), Some(&-4));
    assert_eq!(m.get(0, 3), Some(&0));
    assert_eq!(m.get(2, 2), Some(&-4));
}

#[test]
fn out_of_range_access_is_absent() {
    let mut m = UpperTriRawData::<u8, DynSquare>::new(3);
    assert_eq!(m.get(2, 1), None);
    assert_eq!(m.get(0, 3), None);
    assert_eq!(m.get(3, 3), None);
    assert!(m.get_mut(1, 0).is_none());
    assert!(m.get_diag_el(3).is_none());
    assert!(m.get_diag_el_mut(5).is_none());
    assert_eq!(m.get(2, 2), Some(&0));
}

#[test]
fn view_lengths_are_exact() {
    let m = UpperTriRawData::<u32, DynSquare>::new(6);
    for i in 0..8usize {
        let col = m.get_raw_col(i);
        let row = m.get_raw_row(i);
        let corner = m.get_corner(i);
        let expect_col = if i < 6 { i } else { 0 };
        let expect_row = if i < 6 { 6 - i - 1 } else { 0 };
        let expect_corner = if i < 6 { 6 } else { 0 };
        assert_eq!(col.size_hint(), (expect_col, Some(expect_col)));
        assert_eq!(row.size_hint(), (expect_row, Some(expect_row)));
        assert_eq!(corner.size_hint(), (expect_corner, Some(expect_corner)));
        assert_eq!(col_values(col).len(), expect_col);
        assert_eq!(row_values(row).len(), expect_row);
        assert_eq!(corner_values(corner).len(), expect_corner);
    }
    assert_eq!(m.get_diag().size_hint(), (6, Some(6)));
    assert_eq!(diag_values(m.get_diag()).len(), 6);
    assert_eq!(m.get_diag_mut().size_hint(), (6, Some(6)));
    assert_eq!(m.get_raw_col_mut(3).size_hint(), (3, Some(3)));
    assert_eq!(m.get_raw_row_mut(3).size_hint(), (2, Some(2)));
    assert_eq!(m.get_corner_mut(3).size_hint(), (6, Some(6)));
    assert_eq!(m.get_corner_mut(6).size_hint(), (0, Some(0)));
}

#[test]
fn views_read_the_right_cells() {
    let m = numbered(4);
    assert_eq!(col_values(m.get_raw_col(3)), vec![3, 103, 203]);
    assert_eq!(row_values(m.get_raw_row(1)), vec![102, 103]);
    assert_eq!(diag_values(m.get_diag()), vec![0, 101, 202, 303]);
    assert_eq!(corner_values(m.get_corner(1)), vec![1, 101, 102, 103]);
    assert_eq!(corner_values(m.get_corner(3)), vec![3, 103, 203, 303]);
    assert!(col_values(m.get_raw_col(0)).is_empty());
}

#[test]
fn mutable_views_write_the_right_cells() {
    let mut m = UpperTriRawData::<i16, DynSquare>::new(4);
    let mut v = m.get_diag_mut();
    let mut n = 1;
    while let Some(x) = v.next(&mut m) {
        *x = n;
        n += 1;
    }
    let mut v = m.get_corner_mut(2);
    while let Some(x) = v.next(&mut m) {
        *x += 10;
    }
    let mut v = m.get_raw_col_mut(1);
    while let Some(x) = v.next(&mut m) {
        *x = -1;
    }
    assert_eq!(diag_values(m.get_diag()), vec![1, 2, 13, 4]);
    assert_eq!(corner_values(m.get_corner(2)), vec![10, 10, 13, 10]);
    assert_eq!(col_values(m.get_raw_col(1)), vec![-1]);
    assert_eq!(m.get(0, 3), Some(&0));
}

#[test]
fn push_final_col_pads_and_truncates() {
    let mut m = UpperTriRawData::<i32, DynSquare>::new(2);
    m.push_final_col(&[5]);
    assert_eq!(m.rank.to_usize(), 3);
    assert_eq!(corner_values(m.get_corner(2)), vec![5, 0, 0]);
    m.push_final_col(&[1, 2, 3, 4, 5, 6, 7]);
    assert_eq!(col_values(m.get_raw_col(3)), vec![1, 2, 3]);
    assert_eq!(m.get_diag_el(3), Some(&4));
    assert_eq!(m.data_size(), 10);
    m.push_final_col_iter_owned(vec![8, 9].into_iter());
    assert_eq!(corner_values(m.get_corner(4)), vec![8, 9, 0, 0, 0]);
}

#[test]
fn grow_and_shrink_scenario() {
    let mut m = UpperTriRawData::<usize, DynSquare>::new(10);
    assert_eq!(m.data_size(), 55);
    let vec = (0..=10).collect::<Vec<_>>();
    m.push_final_col(&vec);
    assert_eq!(m.data_size(), 66);
    assert_eq!(m.rank.to_usize(), 11);
    let removed = m.drop_at(4);
    assert_eq!(m.rank.to_usize(), 10);
    assert_eq!(m.data_size(), 55);
    assert_eq!(removed, vec![0, 0, 0, 0, 0, 0, 0, 0, 0, 0, 5]);
    assert_eq!(col_values(m.get_raw_col(9)), vec![0, 1, 2, 3, 4, 6, 7, 8, 9]);
    assert_eq!(m.get_diag_el(9), Some(&10));
}

#[test]
fn drop_at_removes_column_and_next_row() {
    let mut m = numbered(4);
    let removed = m.drop_at(1);
    assert_eq!(removed, vec![1, 101, 202, 203]);
    assert_eq!(m.rank.to_usize(), 3);
    assert_eq!(all_cells(&m), vec![0, 2, 102, 3, 103, 303]);
}

#[test]
fn drop_at_out_of_range_is_a_no_op() {
    let mut empty = UpperTriRawData::<i32, DynSquare>::new(0);
    assert!(empty.drop_at(0).is_empty());
    assert_eq!(empty.rank.to_usize(), 0);
    let mut m = numbered(3);
    assert!(m.drop_at(3).is_empty());
    assert_eq!(all_cells(&m), vec![0, 1, 101, 2, 102, 202]);
}

#[test]
fn push_then_drop_last_restores() {
    let mut m = numbered(5);
    let before = all_cells(&m);
    m.push_final_col(&[9, 8, 7, 6, 5, 4]);
    let removed = m.drop_at(5);
    assert_eq!(removed, vec![9, 8, 7, 6, 5, 4]);
    assert_eq!(m.rank.to_usize(), 5);
    assert_eq!(all_cells(&m), before);
}

#[test]
fn add_is_commutative_and_associative() {
    let a = numbered(3);
    let mut b = UpperTriRawData::<i64, DynSquare>::new(3);
    b.map_inplace(|_| 5);
    let mut c = numbered(3);
    c.map_inplace(|x| -x);
    assert_eq!(all_cells(&a.add(&b)), all_cells(&b.add(&a)));
    assert_eq!(
        all_cells(&a.add(&b).add(&c)),
        all_cells(&a.add(&b.add(&c)))
    );
    assert_eq!(all_cells(&a.add(&b).add(&c)), vec![5; 6]);
}

#[test]
fn add_of_mismatched_ranks_keeps_larger() {
    let small = numbered(2);
    let large = numbered(4);
    let s1 = small.add(&large);
    let s2 = large.add(&small);
    assert_eq!(s1.rank.to_usize(), 4);
    assert_eq!(all_cells(&s1), all_cells(&s2));
    assert_eq!(
        all_cells(&s1),
        vec![0, 2, 202, 2, 102, 202, 3, 103, 203, 303]
    );
}

#[test]
fn sub_then_add_is_identity() {
    let a = numbered(4);
    let mut b = numbered(4);
    b.map_inplace(|x| x * 3 - 7);
    let mut m = numbered(4);
    m.sub_assign(&b);
    assert_eq!(all_cells(&m)[1], 1 - (3 - 7));
    m.add_assign(&b);
    assert_eq!(all_cells(&m), all_cells(&a));
}

#[test]
fn in_place_add_takes_larger_rank_sub_keeps_receiver() {
    let mut small = numbered(2);
    let large = numbered(3);
    small.add_assign(&large);
    assert_eq!(small.rank.to_usize(), 3);
    assert_eq!(all_cells(&small), vec![0, 2, 202, 2, 102, 202]);
    let mut big = numbered(3);
    big.add_assign(&numbered(2));
    assert_eq!(big.rank.to_usize(), 3);
    assert_eq!(all_cells(&big), vec![0, 2, 202, 2, 102, 202]);
    assert!(big.is_wf());
    let mut big = numbered(3);
    big.sub_assign(&numbered(2));
    assert_eq!(all_cells(&big), vec![0, 0, 0, 2, 102, 202]);
}

#[test]
fn map_copies_shape() {
    let m = numbered(3);
    let doubled = m.map(|x| (*x as i32) * 2);
    assert_eq!(doubled.rank.to_usize(), 3);
    assert_eq!(doubled.get(1, 2), Some(&204));
    assert_eq!(doubled.get(0, 0), Some(&0));
    let flags = m.map(|x| *x > 100);
    assert_eq!(flags.get(1, 1), Some(&true));
    assert_eq!(flags.get(0, 2), Some(&false));
}

#[test]
fn find_with_indices_all_zero_always_passes() {
    let m = UpperTriRawData::<i32, DynSquare>::new(5);
    let (pair, acc) = m.find_with_indices(|_: &i32| true, |t: &i32, a: &i32| a + t);
    assert_eq!((pair.row, pair.col), (0, 0));
    assert_eq!(acc, 0);
    let (pair, count) = m.find_with_indices(|_: &usize| true, |_: &i32, a: &usize| a + 1);
    assert_eq!((pair.row, pair.col), (0, 0));
    assert_eq!(count, 15);
}

#[test]
fn find_with_indices_reports_first_failure() {
    let m = numbered(4);
    // running sum in packing order: 0, 1, 102, 104, 206, 408, ...
    let (pair, acc) = m.find_with_indices(|a: &i64| *a < 200, |t: &i64, a: &i64| a + t);
    assert_eq!((pair.row, pair.col), (1, 2));
    assert_eq!(acc, 206);
    let (pair, acc) = m.find_with_indices(|a: &i64| *a < 1, |t: &i64, a: &i64| a + t);
    assert_eq!((pair.row, pair.col), (0, 1));
    assert_eq!(acc, 1);
}

#[test]
fn fixed_rank_stores() {
    let a = UpperTriRawData::<i32, StcSquare<3>>::new();
    assert_eq!(a.data_size(), 6);
    assert_eq!(a.rank.to_usize(), 3);
    let b = UpperTriRawData::<i32, StcSquare<3>>::new_with(4);
    assert_eq!(b.get(0, 2), Some(&4));
    let c = a.add(&b).add(&b);
    assert_eq!(c.get(2, 2), Some(&8));
    assert_eq!(c.get(1, 0), None);
    assert_eq!(diag_values(c.get_diag()), vec![8, 8, 8]);
}

#[test]
fn scalar_arithmetic() {
    assert_eq!(<u8 as Scalar>::zero(), 0);
    assert_eq!(200u8.plus(55), 255);
    assert_eq!(7i8.minus(-3), 10);
    assert_eq!((-5i64).plus(3), -2);
    assert_eq!(10usize.minus(4), 6);
    assert_eq!(DynSquare::clone(&UpperTriRawData::<i32, DynSquare>::new(2).rank).to_usize(), 2);
}

#[test]
fn push_final_col_iter_copies_referenced_values() {
    let mut m = UpperTriRawData::<u16, DynSquare>::new(1);
    let vals: Vec<u16> = vec![3, 4, 5, 6];
    m.push_final_col_iter(vals.iter());
    assert_eq!(corner_values(m.get_corner(1)), vec![3, 4]);
    m.push_final_col_iter(vals[3..].iter());
    assert_eq!(corner_values(m.get_corner(2)), vec![6, 0, 0]);
    assert_eq!(m.get(0, 0), Some(&0));
}

#[test]
fn find_with_indices_starts_from_default() {
    let m = UpperTriRawData::<i32, DynSquare>::new(5);
    let (pair, acc) = m.find_with_indices(|_: &i32| true, |t: &i32, a: &i32| *a + *t + 1);
    assert_eq!((pair.row, pair.col), (0, 0));
    assert_eq!(acc, 15);
    let empty = UpperTriRawData::<i32, DynSquare>::new(0);
    let (pair, acc) = empty.find_with_indices(|_: &i32| true, |t: &i32, a: &i32| *a + *t + 1);
    assert_eq!((pair.row, pair.col), (0, 0));
    assert_eq!(acc, 0);
    assert_eq!(m.rank_usize(), 5);
}

#[test]
fn fixed_rank_add_assign() {
    let mut a = UpperTriRawData::<i64, StcSquare<2>>::new_with(3);
    let b = UpperTriRawData::<i64, StcSquare<2>>::new_with(-1);
    a.add_assign(&b);
    assert_eq!(a.get(0, 1), Some(&2));
    assert_eq!(a.get(1, 1), Some(&2));
    assert!(a.is_wf());
}

#[test]
fn is_wf_detects_rank_mismatch() {
    let mut a = UpperTriRawData::<i32, DynSquare>::new(2);
    assert!(a.is_wf());
    a.rank = UpperTriRawData::<i32, DynSquare>::new(3).rank;
    assert!(!a.is_wf());
}
