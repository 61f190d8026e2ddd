use raman_tools::dataset::{contains_number, Dataset};
use raman_tools::error::Error;
use raman_tools::grid::Grid;

fn small() -> Dataset {
    let grid = Grid::from_rows(&vec![
        vec![1, 10, 2, 20, 3, 30],
        vec![4, 40, 5, 50, 6, 60],
    ])
    .unwrap();
    Dataset::new(grid, "log".to_string(), "old".to_string()).unwrap()
}

#[test]
fn new_rejects_an_odd_number_of_columns() {
    let grid = Grid::from_rows(&vec![vec![1, 2, 3]]).unwrap();
    assert_eq!(
        Dataset::new(grid, String::new(), String::new()).err(),
        Some(Error::ShapeMismatch)
    );
}

#[test]
fn new_keeps_matrix_and_texts() {
    let d = small();
    assert!(d.is_valid());
    assert_eq!(d.frame_count(), 3);
    assert_eq!(d.rows(), 2);
    assert_eq!(d.metadata(), "log");
    assert_eq!(d.previous_comments(), "old");
    assert_eq!(d.data().get(1, 3), Some(50));
}

#[test]
fn default_dataset_is_empty() {
    let d = Dataset::default();
    assert_eq!(d.frame_count(), 0);
    assert_eq!(d.rows(), 0);
    assert_eq!(d.metadata(), "");
    assert_eq!(d.previous_comments(), "");
}

#[test]
fn frame_bounds_count_from_one() {
    let d = small();
    assert_eq!(
        d.verify_one_frame_in_bounds(0),
        Err(Error::OutOfRange { frame: 0 })
    );
    assert_eq!(d.verify_one_frame_in_bounds(1), Ok(()));
    assert_eq!(d.verify_one_frame_in_bounds(3), Ok(()));
    assert_eq!(
        d.verify_one_frame_in_bounds(4),
        Err(Error::OutOfRange { frame: 4 })
    );
    assert_eq!(
        d.verify_one_frame_in_bounds(usize::MAX),
        Err(Error::OutOfRange {
            frame: usize::MAX
        })
    );
}

#[test]
fn frame_bounds_report_the_first_bad_number() {
    let d = small();
    assert_eq!(d.verify_frames_in_bounds(&[1, 2, 3, 3]), Ok(()));
    assert_eq!(d.verify_frames_in_bounds(&[]), Ok(()));
    assert_eq!(
        d.verify_frames_in_bounds(&[2, 7, 0]),
        Err(Error::OutOfRange { frame: 7 })
    );
}

#[test]
fn select_keeps_dataset_order_and_ignores_repeats() {
    let d = small();
    let g = d.select_frames(&[3, 1, 3], false).unwrap();
    assert_eq!(g.to_rows(), vec![vec![1, 10, 3, 30], vec![4, 40, 6, 60]]);
}

#[test]
fn frame_accessors_read_and_write_one_column() {
    let mut d = small();
    assert_eq!(d.frame_x(2), Ok(vec![2, 5]));
    assert_eq!(d.frame_y(2), Ok(vec![20, 50]));
    assert_eq!(d.frame_y(4), Err(Error::OutOfRange { frame: 4 }));
    assert_eq!(d.frame_x(0), Err(Error::OutOfRange { frame: 0 }));
    assert_eq!(d.set_frame_y(3, &vec![7, 8]), Ok(()));
    assert_eq!(d.set_frame_x(1, &vec![9, 9]), Ok(()));
    assert_eq!(d.set_frame_y(1, &vec![7]), Err(Error::ShapeMismatch));
    assert_eq!(
        d.set_frame_y(0, &vec![7, 8]),
        Err(Error::OutOfRange { frame: 0 })
    );
    assert_eq!(
        d.data().to_rows(),
        vec![vec![9, 10, 2, 20, 3, 7], vec![9, 40, 5, 50, 6, 8]]
    );
    assert_eq!(d.metadata(), "log");
}

#[test]
fn selected_frames_filters_in_dataset_order() {
    let d = small();
    assert_eq!(d.selected_frames(&None), vec![1, 2, 3]);
    assert_eq!(d.selected_frames(&Some(vec![3, 1, 1, 9, 0])), vec![1, 3]);
    assert_eq!(d.selected_frames(&Some(vec![])), Vec::<usize>::new());
}

#[test]
fn intensities_are_the_odd_columns() {
    let mut d = small();
    let y = d.intensities();
    assert_eq!(y.to_rows(), vec![vec![10, 20, 30], vec![40, 50, 60]]);
    let new = Grid::from_rows(&vec![vec![11, 21, 31], vec![41, 51, 61]]).unwrap();
    assert_eq!(d.set_intensities(&new), Ok(()));
    assert_eq!(
        d.data().to_rows(),
        vec![vec![1, 11, 2, 21, 3, 31], vec![4, 41, 5, 51, 6, 61]]
    );
    let wrong = Grid::from_rows(&vec![vec![11, 21], vec![41, 51]]).unwrap();
    assert_eq!(d.set_intensities(&wrong), Err(Error::ShapeMismatch));
    assert_eq!(
        d.data().to_rows(),
        vec![vec![1, 11, 2, 21, 3, 31], vec![4, 41, 5, 51, 6, 61]]
    );
}

#[test]
fn set_data_checks_the_column_pairs() {
    let mut d = small();
    let odd = Grid::from_rows(&vec![vec![1, 2, 3]]).unwrap();
    assert_eq!(d.set_data(odd), Err(Error::ShapeMismatch));
    assert_eq!(d.frame_count(), 3);
    let even = Grid::from_rows(&vec![vec![1, 2]]).unwrap();
    assert_eq!(d.set_data(even), Ok(()));
    assert_eq!(d.data().to_rows(), vec![vec![1, 2]]);
    assert_eq!(d.previous_comments(), "old");
}

#[test]
fn texts_grow_at_the_end() {
    let mut d = small();
    d.append_metadata("+a");
    d.append_comments("+b");
    assert_eq!(d.metadata(), "log+a");
    assert_eq!(d.previous_comments(), "old+b");
}

#[test]
fn push_frame_adds_a_pair_of_columns() {
    let mut d = small();
    assert_eq!(d.push_frame(&vec![7, 8], &vec![70, 80]), Ok(()));
    assert_eq!(
        d.data().to_rows(),
        vec![
            vec![1, 10, 2, 20, 3, 30, 7, 70],
            vec![4, 40, 5, 50, 6, 60, 8, 80]
        ]
    );
    assert_eq!(
        d.push_frame(&vec![7], &vec![70, 80]),
        Err(Error::ShapeMismatch)
    );
    assert_eq!(d.frame_count(), 4);
}

#[test]
fn contains_number_finds_what_is_there() {
    assert!(contains_number(&[3, 1, 2], 2));
    assert!(!contains_number(&[3, 1, 2], 4));
    assert!(!contains_number(&[], 0));
}

#[test]
fn map_intensities_changes_the_targeted_frames_only() {
    let mut d = small();
    d.map_intensities(&Some(vec![3, 1, 7, 0]), |x: u64, y: u64| x + y);
    assert_eq!(
        d.data().to_rows(),
        vec![vec![1, 11, 2, 20, 3, 33], vec![4, 44, 5, 50, 6, 66]]
    );
    d.map_intensities(&None, |_x: u64, y: u64| y + 1);
    assert_eq!(
        d.data().to_rows(),
        vec![vec![1, 12, 2, 21, 3, 34], vec![4, 45, 5, 51, 6, 67]]
    );
    d.map_intensities(&Some(vec![]), |_x: u64, _y: u64| 0);
    assert_eq!(
        d.data().to_rows(),
        vec![vec![1, 12, 2, 21, 3, 34], vec![4, 45, 5, 51, 6, 67]]
    );
    assert_eq!(d.metadata(), "log");
}

#[test]
fn map_axes_changes_the_x_values_only() {
    let mut d = small();
    d.map_axes(|x: u64| x * 100);
    assert_eq!(
        d.data().to_rows(),
        vec![
            vec![100, 10, 200, 20, 300, 30],
            vec![400, 40, 500, 50, 600, 60]
        ]
    );
    let mut none = Dataset::default();
    none.map_axes(|x: u64| x + 1);
    assert_eq!(none.rows(), 0);
}
