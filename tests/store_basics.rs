use std::iter::repeat;
use upper_tri::dimension::DynSquare;
use upper_tri::upper_tri::{ColView, RowView, UpperTriRawData};

fn col_values<T: Copy>(mut view: ColView<'_, T>) -> Vec<T> {
    let mut out = Vec::new();
    while let Some(x) = view.next() {
        out.push(*x);
    }
    out
}

fn row_values<T: Copy>(mut view: RowView<'_, T>) -> Vec<T> {
    let mut out = Vec::new();
    while let Some(x) = view.next() {
        out.push(*x);
    }
    out
}

/// The row and column access is strictly above and to the right of the diagonal so the
/// column above position zero has length 0.  The column above position 1 has length 1 etc.
#[test]
fn test_test_sizes() {
    let hundurd: usize = 100;
    let mut b = UpperTriRawData::<i32, DynSquare>::new(hundurd);

    let mut val = 0;
    let row_index = 53;
    let mut view = b.get_raw_row_mut(row_index);
    while let Some(x) = view.next(&mut b) {
        *x = val;
        val += 1;
    }
    let c = row_values(b.get_raw_row(row_index));
    assert_eq!(
        c,
        (0..(hundurd - row_index - 1))
            .map(|x| x as i32)
            .collect::<Vec<_>>()
    );
    let d = row_values(b.get_raw_row(hundurd - 2));
    assert_eq!(d.len(), 1);
    let e = col_values(b.get_raw_col(1));
    assert_eq!(e.len(), 1);
    let row = row_values(b.get_raw_row(0));
    assert_eq!(row.len(), hundurd - 1);
    let col = col_values(b.get_raw_col(hundurd - 1));
    assert_eq!(col.len(), hundurd - 1);
}

#[test]
fn test_test_element_access() {
    let mut upper_tri = UpperTriRawData::<usize, DynSquare>::new(0);
    for i in 0..10 {
        let iter = (0..(i + 1)).rev();
        upper_tri.push_final_col_iter_owned(iter);
    }

    for col in 0..10 {
        for row in 0..(col + 1) {
            assert_eq!(upper_tri.get(row, col), Some(&(col - row)));
        }
    }
}

/// We're testing that if we access out of bounds we get empty iterators
/// we also test that if we're in bounds we've got the right limits
#[test]
fn test_test_row_col_access() {
    let mut upper_tri = UpperTriRawData::<usize, DynSquare>::new(10);
    let mut x: i32 = 0;
    let mut v = upper_tri.get_raw_col(1);
    while v.next().is_some() {
        x += 1;
    }
    assert_eq!(x, 1); // index 1 is the second col ... arrays start at 0

    let mut x: i32 = 0;
    let mut v = upper_tri.get_raw_col(10);
    while v.next().is_some() {
        x += 1;
    }
    assert_eq!(x, 0);

    let mut x: i32 = 0;
    let mut v = upper_tri.get_raw_col_mut(1);
    while v.next(&mut upper_tri).is_some() {
        x += 1;
    }
    assert_eq!(x, 1);

    let mut x: i32 = 0;
    let mut v = upper_tri.get_raw_col_mut(10);
    while v.next(&mut upper_tri).is_some() {
        x += 1;
    }
    assert_eq!(x, 0);

    let mut x: i32 = 0;
    let mut v = upper_tri.get_raw_row(10);
    while v.next().is_some() {
        x += 1;
    }
    assert_eq!(x, 0);

    let mut x: i32 = 0;
    let mut v = upper_tri.get_raw_row(0);
    while v.next().is_some() {
        x += 1;
    }
    assert_eq!(x, 9);

    let mut x: i32 = 0;
    let mut v = upper_tri.get_raw_row_mut(10);
    while v.next(&mut upper_tri).is_some() {
        x += 1;
    }
    assert_eq!(x, 0);

    let mut x: i32 = 0;
    let mut v = upper_tri.get_raw_row_mut(0);
    while v.next(&mut upper_tri).is_some() {
        x += 1;
    }
    assert_eq!(x, 9);

    let mut x: i32 = 0;
    let mut v = upper_tri.get_corner(0);
    while v.next().is_some() {
        x += 1;
    }
    assert_eq!(x, 10);

    let mut x: i32 = 0;
    let mut v = upper_tri.get_corner_mut(4);
    while v.next(&mut upper_tri).is_some() {
        x += 1;
    }
    assert_eq!(x, 10);

    let mut x: i32 = 0;
    let mut v = upper_tri.get_corner_mut(12);
    while v.next(&mut upper_tri).is_some() {
        x += 1;
    }
    assert_eq!(x, 0);
}

#[test]
fn test_test_creation() {
    let ten: usize = 10;
    let mut upper_tri = UpperTriRawData::<usize, DynSquare>::new(ten);
    assert_eq!(upper_tri.data_size(), 10 * 11 / 2);
    let vec = (0..11).collect::<Vec<_>>();
    upper_tri.push_final_col(&vec);
    // dropping the "corner" at the fifth element
    // (arrays start at 0)
    upper_tri.drop_at(4);
    let col = col_values(upper_tri.get_raw_col(9));
    assert_eq!(vec![0, 1, 2, 3, 4, 6, 7, 8, 9], col);
}

#[test]
fn test_test_addition() {
    let mut upper_tri_1 = UpperTriRawData::<isize, DynSquare>::new(1);
    let mut upper_tri_2 = UpperTriRawData::<isize, DynSquare>::new(1);
    upper_tri_1.push_final_col_iter(repeat(&(-1)));
    upper_tri_1.push_final_col_iter(repeat(&1));
    upper_tri_2.push_final_col_iter(repeat(&1));
    upper_tri_2.push_final_col_iter(repeat(&1));

    let upper_tri_3 = upper_tri_1.add(&upper_tri_2);
    let second_col = col_values(upper_tri_3.get_raw_col(1));
    let third_col = col_values(upper_tri_3.get_raw_col(2));
    assert_eq!(second_col, vec![0]);
    assert_eq!(third_col, vec![2, 2]);
}

#[test]
fn upper_tri_data_test_sizes() {
    let hundurd: usize = 100;
    let mut b = UpperTriRawData::<i32, DynSquare>::new(hundurd);

    let mut val = 0;
    let row_index = 53;
    let mut view = b.get_raw_row_mut(row_index);
    while let Some(x) = view.next(&mut b) {
        *x = val;
        val += 1;
    }
    let c = row_values(b.get_raw_row(row_index));
    assert_eq!(
        c,
        (0..(hundurd - row_index - 1))
            .map(|x| x as i32)
            .collect::<Vec<_>>()
    );
    let d = row_values(b.get_raw_row(hundurd - 2));
    assert_eq!(d.len(), 1);
    let e = col_values(b.get_raw_col(1));
    assert_eq!(e.len(), 1);
    let row = row_values(b.get_raw_row(0));
    assert_eq!(row.len(), hundurd - 1);
    let col = col_values(b.get_raw_col(hundurd - 1));
    assert_eq!(col.len(), hundurd - 1);
}

#[test]
fn upper_tri_data_test_element_access() {
    let mut upper_tri = UpperTriRawData::<usize, DynSquare>::new(0);
    for i in 0..10 {
        let iter = (0..(i + 1)).rev();
        upper_tri.push_final_col_iter_owned(iter);
    }

    for col in 0..10 {
        for row in 0..(col + 1) {
            assert_eq!(upper_tri.get(row, col), Some(&(col - row)));
        }
    }
}

#[test]
fn upper_tri_data_test_row_col_access() {
    let mut upper_tri = UpperTriRawData::<usize, DynSquare>::new(10);
    let mut x: i32 = 0;
    let mut v = upper_tri.get_raw_col(1);
    while v.next().is_some() {
        x += 1;
    }
    assert_eq!(x, 1); // index 1 is the second col ... arrays start at 0

    let mut x: i32 = 0;
    let mut v = upper_tri.get_raw_col(10);
    while v.next().is_some() {
        x += 1;
    }
    assert_eq!(x, 0);

    let mut x: i32 = 0;
    let mut v = upper_tri.get_raw_col_mut(1);
    while v.next(&mut upper_tri).is_some() {
        x += 1;
    }
    assert_eq!(x, 1);

    let mut x: i32 = 0;
    let mut v = upper_tri.get_raw_col_mut(10);
    while v.next(&mut upper_tri).is_some() {
        x += 1;
    }
    assert_eq!(x, 0);

    let mut x: i32 = 0;
    let mut v = upper_tri.get_raw_row(10);
    while v.next().is_some() {
        x += 1;
    }
    assert_eq!(x, 0);

    let mut x: i32 = 0;
    let mut v = upper_tri.get_raw_row(0);
    while v.next().is_some() {
        x += 1;
    }
    assert_eq!(x, 9);

    let mut x: i32 = 0;
    let mut v = upper_tri.get_raw_row_mut(10);
    while v.next(&mut upper_tri).is_some() {
        x += 1;
    }
    assert_eq!(x, 0);

    let mut x: i32 = 0;
    let mut v = upper_tri.get_raw_row_mut(0);
    while v.next(&mut upper_tri).is_some() {
        x += 1;
    }
    assert_eq!(x, 9);

    let mut x: i32 = 0;
    let mut v = upper_tri.get_corner(0);
    while v.next().is_some() {
        x += 1;
    }
    assert_eq!(x, 10);

    let mut x: i32 = 0;
    let mut v = upper_tri.get_corner_mut(4);
    while v.next(&mut upper_tri).is_some() {
        x += 1;
    }
    assert_eq!(x, 10);

    let mut x: i32 = 0;
    let mut v = upper_tri.get_corner_mut(12);
    while v.next(&mut upper_tri).is_some() {
        x += 1;
    }
    assert_eq!(x, 0);
}

#[test]
fn upper_tri_data_test_creation() {
    let ten: usize = 10;
    let mut upper_tri = UpperTriRawData::<usize, DynSquare>::new(ten);
    assert_eq!(upper_tri.data_size(), 10 * 11 / 2);
    let vec = (0..11).collect::<Vec<_>>();
    upper_tri.push_final_col(&vec);
    // dropping the "corner" at the fifth element
    // (arrays start at 0)
    upper_tri.drop_at(4);
    let col = col_values(upper_tri.get_raw_col(9));
    assert_eq!(vec![0, 1, 2, 3, 4, 6, 7, 8, 9], col);
}

#[test]
fn upper_tri_data_test_addition() {
    let mut upper_tri_1 = UpperTriRawData::<isize, DynSquare>::new(1);
    let mut upper_tri_2 = UpperTriRawData::<isize, DynSquare>::new(1);
    upper_tri_1.push_final_col_iter(repeat(&(-1)));
    upper_tri_1.push_final_col_iter(repeat(&1));
    upper_tri_2.push_final_col_iter(repeat(&1));
    upper_tri_2.push_final_col_iter(repeat(&1));

    let upper_tri_3 = upper_tri_1.add(&upper_tri_2);
    let second_col = col_values(upper_tri_3.get_raw_col(1));
    let third_col = col_values(upper_tri_3.get_raw_col(2));
    assert_eq!(second_col, vec![0]);
    assert_eq!(third_col, vec![2, 2]);
}
