use raman_tools::error::Error;
use raman_tools::grid::{fits, Grid};

#[test]
fn from_rows_and_to_rows_agree() {
    let rows = vec![vec![1u64, 2, 3], vec![4, 5, 6]];
    let g = Grid::from_rows(&rows).unwrap();
    assert_eq!(g.rows(), 2);
    assert_eq!(g.cols(), 3);
    assert_eq!(g.to_rows(), rows);
    assert_eq!(g.get(1, 2), Some(6));
    assert_eq!(g.get(0, 0), Some(1));
}

#[test]
fn from_rows_rejects_ragged_rows() {
    assert!(Grid::from_rows(&vec![vec![1u64, 2], vec![3]]).is_none());
}

#[test]
fn from_rows_of_nothing_is_empty() {
    let g = Grid::from_rows(&Vec::new()).unwrap();
    assert_eq!((g.rows(), g.cols()), (0, 0));
    assert_eq!(g.to_rows(), Vec::<Vec<u64>>::new());
}

#[test]
fn get_outside_the_grid_is_none() {
    let g = Grid::filled(2, 2, 7).unwrap();
    assert_eq!(g.get(2, 0), None);
    assert_eq!(g.get(0, 2), None);
    assert_eq!(g.get(1, 1), Some(7));
}

#[test]
fn set_changes_one_cell_only() {
    let mut g = Grid::filled(2, 3, 0).unwrap();
    assert!(g.set(1, 2, 9));
    assert!(!g.set(2, 0, 5));
    assert!(!g.set(0, 3, 5));
    assert_eq!(g.to_rows(), vec![vec![0, 0, 0], vec![0, 0, 9]]);
}

#[test]
fn filled_rejects_a_shape_that_is_too_large() {
    assert!(Grid::filled(usize::MAX, 2, 0).is_none());
    assert!(!fits(usize::MAX, 2));
    assert!(!fits(usize::MAX, 0));
    assert!(fits(0, 0));
    assert!(fits(isize::MAX as usize, 1));
    assert!(fits(isize::MAX as usize, 0));
    assert!(!fits(isize::MAX as usize / 2 + 1, 2));
}

#[test]
fn column_values_and_set_column() {
    let mut g = Grid::from_rows(&vec![vec![1, 2], vec![3, 4], vec![5, 6]]).unwrap();
    assert_eq!(g.column_values(1), Some(vec![2, 4, 6]));
    assert_eq!(g.column_values(2), None);
    assert!(g.set_column(0, &vec![7, 8, 9]));
    assert!(!g.set_column(0, &vec![7, 8]));
    assert!(!g.set_column(2, &vec![7, 8, 9]));
    assert_eq!(g.to_rows(), vec![vec![7, 2], vec![8, 4], vec![9, 6]]);
}

#[test]
fn join_puts_rows_below_and_columns_beside() {
    let a = Grid::from_rows(&vec![vec![1, 2], vec![3, 4]]).unwrap();
    let b = Grid::from_rows(&vec![vec![5, 6], vec![7, 8]]).unwrap();
    let below = Grid::join(0, &a, &b).unwrap();
    assert_eq!(
        below.to_rows(),
        vec![vec![1, 2], vec![3, 4], vec![5, 6], vec![7, 8]]
    );
    let beside = Grid::join(1, &a, &b).unwrap();
    assert_eq!(beside.to_rows(), vec![vec![1, 2, 5, 6], vec![3, 4, 7, 8]]);
}

#[test]
fn join_rejects_shapes_that_do_not_fit_together() {
    let a = Grid::from_rows(&vec![vec![1, 2], vec![3, 4]]).unwrap();
    let c = Grid::from_rows(&vec![vec![1, 2, 3]]).unwrap();
    assert_eq!(Grid::join(0, &a, &c).err(), Some(Error::ShapeMismatch));
    assert_eq!(Grid::join(1, &a, &c).err(), Some(Error::ShapeMismatch));
    assert_eq!(Grid::join(2, &a, &a).err(), Some(Error::ShapeMismatch));
}

#[test]
fn join_with_an_empty_grid() {
    let a = Grid::from_rows(&vec![vec![1, 2], vec![3, 4]]).unwrap();
    let none = Grid::filled(0, 2, 0).unwrap();
    assert_eq!(Grid::join(0, &a, &none).unwrap().to_rows(), a.to_rows());
    let thin = Grid::filled(2, 0, 0).unwrap();
    assert_eq!(Grid::join(1, &thin, &a).unwrap().to_rows(), a.to_rows());
}
