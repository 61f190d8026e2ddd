use raman_tools::dataset::Dataset;
use raman_tools::error::Error;
use raman_tools::grid::Grid;
use raman_tools::transformations::select::SelectTransform;

fn bits(rows: &[Vec<f64>]) -> Vec<Vec<u64>> {
    rows.iter()
        .map(|r| r.iter().map(|v| v.to_bits()).collect())
        .collect()
}

fn values(g: &Grid) -> Vec<Vec<f64>> {
    g.to_rows()
        .iter()
        .map(|r| r.iter().map(|v| f64::from_bits(*v)).collect())
        .collect()
}

fn dummy() -> Dataset {
    let rows: Vec<Vec<f64>> = (1..=8)
        .map(|i| (1..=8).map(|j| (10 * i + j) as f64).collect())
        .collect();
    let grid = Grid::from_rows(&bits(&rows)).unwrap();
    Dataset::new(grid, String::new(), String::new()).unwrap()
}

#[test]
fn test_select_transform() {
    let mut dataset = dummy();
    let mut trsf = SelectTransform {
        frames: vec![1],
        invert: true,
    };
    trsf.transform(&mut dataset).unwrap();
    assert_eq!(
        vec![
            vec![13., 14., 15., 16., 17., 18.],
            vec![23., 24., 25., 26., 27., 28.],
            vec![33., 34., 35., 36., 37., 38.],
            vec![43., 44., 45., 46., 47., 48.],
            vec![53., 54., 55., 56., 57., 58.],
            vec![63., 64., 65., 66., 67., 68.],
            vec![73., 74., 75., 76., 77., 78.],
            vec![83., 84., 85., 86., 87., 88.],
        ],
        values(dataset.data())
    );
    trsf.frames = vec![2, 3];
    trsf.invert = false;
    let _ = trsf.transform(&mut dataset);
    assert_eq!(
        vec![
            vec![15., 16., 17., 18.],
            vec![25., 26., 27., 28.],
            vec![35., 36., 37., 38.],
            vec![45., 46., 47., 48.],
            vec![55., 56., 57., 58.],
            vec![65., 66., 67., 68.],
            vec![75., 76., 77., 78.],
            vec![85., 86., 87., 88.],
        ],
        values(dataset.data())
    );
}

#[test]
fn select_rejects_frame_zero_and_frames_past_the_end() {
    let dataset = dummy();
    assert_eq!(
        dataset.select_frames(&[0], false).err(),
        Some(Error::OutOfRange { frame: 0 })
    );
    assert_eq!(
        dataset.select_frames(&[2, 5, 9], false).err(),
        Some(Error::OutOfRange { frame: 5 })
    );
}

#[test]
fn select_rejects_a_selection_without_frames() {
    let dataset = dummy();
    assert_eq!(
        dataset.select_frames(&[], false).err(),
        Some(Error::EmptySelection)
    );
    assert_eq!(
        dataset.select_frames(&[1, 2, 3, 4], true).err(),
        Some(Error::EmptySelection)
    );
}

#[test]
fn selection_and_its_complement_split_the_frames() {
    let dataset = dummy();
    let chosen = dataset.select_frames(&[4, 2], false).unwrap();
    let others = dataset.select_frames(&[4, 2], true).unwrap();
    let all = values(dataset.data());
    let a = values(&chosen);
    let b = values(&others);
    assert_eq!(a[0].len() + b[0].len(), all[0].len());
    for i in 0..8 {
        assert_eq!(a[i], vec![all[i][2], all[i][3], all[i][6], all[i][7]]);
        assert_eq!(b[i], vec![all[i][0], all[i][1], all[i][4], all[i][5]]);
    }
}
