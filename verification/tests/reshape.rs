use raman_tools::dataset::Dataset;
use raman_tools::error::Error;
use raman_tools::grid::Grid;
use raman_tools::transformations::reshape::ReshapeTransform;

fn dataset_of(rows: Vec<Vec<f64>>) -> Dataset {
    let bits: Vec<Vec<u64>> = rows
        .iter()
        .map(|r| r.iter().map(|v| v.to_bits()).collect())
        .collect();
    Dataset::new(
        Grid::from_rows(&bits).unwrap(),
        String::new(),
        String::new(),
    )
    .unwrap()
}

fn values(d: &Dataset) -> Vec<Vec<f64>> {
    d.data()
        .to_rows()
        .iter()
        .map(|r| r.iter().map(|v| f64::from_bits(*v)).collect())
        .collect()
}

#[test]
fn test_reshape_transform() {
    let mut dataset = dataset_of(vec![
        vec![11., 12., 13., 14.],
        vec![21., 22., 23., 24.],
        vec![31., 32., 33., 34.],
        vec![41., 42., 43., 44.],
        vec![51., 52., 53., 54.],
        vec![61., 62., 63., 64.],
        vec![71., 72., 73., 74.],
        vec![81., 82., 83., 84.],
    ]);
    // transform into same shape
    let transform = ReshapeTransform { rows: 8 };
    transform.transform(&mut dataset).unwrap();
    // reshape into same number of rows must not change dataset
    assert_eq!(
        values(&dataset),
        vec![
            vec![11., 12., 13., 14.],
            vec![21., 22., 23., 24.],
            vec![31., 32., 33., 34.],
            vec![41., 42., 43., 44.],
            vec![51., 52., 53., 54.],
            vec![61., 62., 63., 64.],
            vec![71., 72., 73., 74.],
            vec![81., 82., 83., 84.],
        ]
    );
    // transform into wider shape
    let transform = ReshapeTransform { rows: 4 };
    transform.transform(&mut dataset).unwrap();
    assert_eq!(
        values(&dataset),
        vec![
            vec![11., 12., 51., 52., 13., 14., 53., 54.],
            vec![21., 22., 61., 62., 23., 24., 63., 64.],
            vec![31., 32., 71., 72., 33., 34., 73., 74.],
            vec![41., 42., 81., 82., 43., 44., 83., 84.],
        ]
    );
    // transform into more narrow shape
    let transform = ReshapeTransform { rows: 16 };
    transform.transform(&mut dataset).unwrap();
    assert_eq!(
        values(&dataset),
        vec![
            vec![11., 12.],
            vec![21., 22.],
            vec![31., 32.],
            vec![41., 42.],
            vec![51., 52.],
            vec![61., 62.],
            vec![71., 72.],
            vec![81., 82.],
            vec![13., 14.],
            vec![23., 24.],
            vec![33., 34.],
            vec![43., 44.],
            vec![53., 54.],
            vec![63., 64.],
            vec![73., 74.],
            vec![83., 84.],
        ]
    )
}

#[test]
fn reshape_rejects_zero_rows() {
    let mut dataset = dataset_of(vec![vec![1., 2.], vec![3., 4.]]);
    let r = ReshapeTransform { rows: 0 }.transform(&mut dataset);
    assert_eq!(r, Err(Error::ShapeMismatch));
    assert_eq!(values(&dataset), vec![vec![1., 2.], vec![3., 4.]]);
}

#[test]
fn reshape_rejects_a_row_count_that_does_not_divide() {
    let mut dataset = dataset_of(vec![vec![1., 2.], vec![3., 4.], vec![5., 6.]]);
    assert_eq!(
        ReshapeTransform { rows: 2 }.transform(&mut dataset),
        Err(Error::ShapeMismatch)
    );
    assert_eq!(
        ReshapeTransform { rows: 6 }.transform(&mut dataset),
        Err(Error::ShapeMismatch)
    );
    assert_eq!(
        ReshapeTransform { rows: 7 }.transform(&mut dataset),
        Err(Error::ShapeMismatch)
    );
    assert_eq!(
        values(&dataset),
        vec![vec![1., 2.], vec![3., 4.], vec![5., 6.]]
    );
}

#[test]
fn reshape_of_a_dataset_without_pairs_sets_the_row_count() {
    let mut dataset = Dataset::default();
    assert_eq!(ReshapeTransform { rows: 3 }.transform(&mut dataset), Ok(()));
    assert_eq!(dataset.rows(), 3);
    assert_eq!(dataset.frame_count(), 0);
    assert_eq!(
        ReshapeTransform { rows: usize::MAX }.transform(&mut dataset),
        Err(Error::ShapeMismatch)
    );
    assert_eq!(
        ReshapeTransform { rows: 0 }.transform(&mut dataset),
        Err(Error::ShapeMismatch)
    );
    assert_eq!(dataset.rows(), 3);
}

#[test]
fn reshape_keeps_the_pairs_in_raster_order() {
    let mut dataset = dataset_of(vec![
        vec![1., 10., 4., 40.],
        vec![2., 20., 5., 50.],
        vec![3., 30., 6., 60.],
    ]);
    ReshapeTransform { rows: 2 }
        .transform(&mut dataset)
        .unwrap();
    assert_eq!(
        values(&dataset),
        vec![
            vec![1., 10., 3., 30., 5., 50.],
            vec![2., 20., 4., 40., 6., 60.],
        ]
    );
    ReshapeTransform { rows: 1 }
        .transform(&mut dataset)
        .unwrap();
    assert_eq!(
        values(&dataset),
        vec![vec![
            1., 10., 2., 20., 3., 30., 4., 40., 5., 50., 6., 60.
        ]]
    );
    ReshapeTransform { rows: 6 }
        .transform(&mut dataset)
        .unwrap();
    assert_eq!(
        values(&dataset),
        vec![
            vec![1., 10.],
            vec![2., 20.],
            vec![3., 30.],
            vec![4., 40.],
            vec![5., 50.],
            vec![6., 60.],
        ]
    );
}
