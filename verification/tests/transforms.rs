use raman_tools::common::Pair;
use raman_tools::dataset::Dataset;
use raman_tools::error::Error;
use raman_tools::grid::Grid;
use raman_tools::transformations::append::AppendTransform;
use raman_tools::transformations::average::AverageTransform;
use raman_tools::transformations::align::align_frames;
use raman_tools::transformations::baseline::store_baseline;
use raman_tools::transformations::count_conversion::convert_counts;
use raman_tools::transformations::finning::{argmax, clip_row, clip_rows, finning};
use raman_tools::transformations::integrate::integrate;
use raman_tools::transformations::mask_pixels::MaskTransform;
use raman_tools::transformations::normalize::normalize;
use raman_tools::transformations::offset::{offset_frames, offset_frames_by};
use raman_tools::transformations::subtract::SubtractTransform;

fn dataset_of(rows: Vec<Vec<f64>>) -> Dataset {
    let bits: Vec<Vec<u64>> = rows
        .iter()
        .map(|r| r.iter().map(|v| v.to_bits()).collect())
        .collect();
    Dataset::new(
        Grid::from_rows(&bits).unwrap(),
        String::new(),
        "first".to_string(),
    )
    .unwrap()
}

fn values_of(g: &Grid) -> Vec<Vec<f64>> {
    g.to_rows()
        .iter()
        .map(|r| r.iter().map(|v| f64::from_bits(*v)).collect())
        .collect()
}

fn mean(values: &Vec<u64>) -> u64 {
    let sum: f64 = values.iter().map(|v| f64::from_bits(*v)).sum();
    (sum / values.len() as f64).to_bits()
}

#[test]
fn test_offset_transfort() {
    let mut dataset = dataset_of(vec![
        vec![11., 12., 13., 14., 11., 12., 13., 14.],
        vec![21., 22., 23., 24., 21., 22., 23., 24.],
        vec![31., 32., 33., 34., 31., 32., 33., 34.],
        vec![41., 42., 43., 44., 41., 42., 43., 44.],
        vec![51., 52., 53., 54., 51., 52., 53., 54.],
        vec![61., 62., 63., 64., 61., 62., 63., 64.],
        vec![71., 72., 73., 74., 71., 72., 73., 74.],
        vec![81., 82., 83., 84., 81., 82., 83., 84.],
    ]);
    let exprected_data = vec![
        vec![11., 14., 13., 14., 11., 12., 13., 16.],
        vec![21., 24., 23., 24., 21., 22., 23., 26.],
        vec![31., 34., 33., 34., 31., 32., 33., 36.],
        vec![41., 44., 43., 44., 41., 42., 43., 46.],
        vec![51., 54., 53., 54., 51., 52., 53., 56.],
        vec![61., 64., 63., 64., 61., 62., 63., 66.],
        vec![71., 74., 73., 74., 71., 72., 73., 76.],
        vec![81., 84., 83., 84., 81., 82., 83., 86.],
    ];
    let offset = 2.0;
    let r = offset_frames(&mut dataset, &Some(vec![1, 4]), |_x: u64, y: u64| {
        (f64::from_bits(y) + offset).to_bits()
    });
    assert_eq!(r, Ok(()));
    assert_eq!(values_of(dataset.data()), exprected_data)
}

#[test]
fn offset_frames_refuses_targets_that_are_no_frames() {
    let mut dataset = dataset_of(vec![vec![1., 2., 3., 4.]]);
    let r = offset_frames(&mut dataset, &Some(vec![2, 3]), |_x: u64, _y: u64| 0);
    assert_eq!(r, Err(Error::OutOfRange { frame: 3 }));
    assert_eq!(values_of(dataset.data()), vec![vec![1., 2., 3., 4.]]);
    let r = offset_frames(&mut dataset, &None, |x: u64, y: u64| {
        (f64::from_bits(x) * 10. + f64::from_bits(y)).to_bits()
    });
    assert_eq!(r, Ok(()));
    assert_eq!(values_of(dataset.data()), vec![vec![1., 12., 3., 34.]]);
}

fn smallest(_xs: &Vec<u64>, ys: &Vec<u64>) -> Result<u64, Error> {
    let min = ys
        .iter()
        .map(|y| f64::from_bits(*y))
        .fold(f64::INFINITY, f64::min);
    if min.is_finite() {
        Ok((-min).to_bits())
    } else {
        Err(Error::InsufficientData)
    }
}

fn plus(y: u64, offset: u64) -> u64 {
    (f64::from_bits(y) + f64::from_bits(offset)).to_bits()
}

#[test]
fn offset_frames_by_takes_an_amount_of_each_frame() {
    let mut dataset = dataset_of(vec![
        vec![1., 10., 1., 8., 1., 5.],
        vec![2., 20., 2., 4., 2., 50.],
    ]);
    let r = offset_frames_by(&mut dataset, &Some(vec![2, 3]), &smallest, &plus);
    assert_eq!(r, Ok(()));
    assert_eq!(
        values_of(dataset.data()),
        vec![
            vec![1., 10., 1., 4., 1., 0.],
            vec![2., 20., 2., 0., 2., 45.]
        ]
    );
    let r = offset_frames_by(&mut dataset, &Some(vec![1, 4]), &smallest, &plus);
    assert_eq!(r, Err(Error::OutOfRange { frame: 4 }));
    assert_eq!(
        values_of(dataset.data()),
        vec![
            vec![1., 10., 1., 4., 1., 0.],
            vec![2., 20., 2., 0., 2., 45.]
        ]
    );
    let mut no_rows = Dataset::new(
        Grid::filled(0, 2, 0).unwrap(),
        String::new(),
        String::new(),
    )
    .unwrap();
    assert_eq!(
        offset_frames_by(&mut no_rows, &None, &smallest, &plus),
        Err(Error::InsufficientData)
    );
}

#[test]
fn subtract_refuses_the_subtrahend_as_minuend() {
    let dataset = dataset_of(vec![vec![1., 2., 3., 4.]]);
    let t = SubtractTransform {
        subtrahend: 1,
        minuends: Some(vec![1]),
        direct: false,
    };
    assert_eq!(
        t.operands(&dataset).err(),
        Some(Error::SubtrahendAmongMinuends)
    );
    let t = SubtractTransform {
        subtrahend: 9,
        minuends: Some(vec![2, 9]),
        direct: true,
    };
    assert_eq!(
        t.operands(&dataset).err(),
        Some(Error::SubtrahendAmongMinuends)
    );
}

#[test]
fn subtract_operands_default_to_all_other_frames() {
    let dataset = dataset_of(vec![
        vec![1., 10., 2., 20., 3., 30.],
        vec![4., 40., 5., 50., 6., 60.],
    ]);
    let t = SubtractTransform {
        subtrahend: 2,
        minuends: None,
        direct: true,
    };
    let (minuends, subtrahend) = t.operands(&dataset).unwrap();
    assert_eq!(
        values_of(&minuends),
        vec![vec![1., 10., 3., 30.], vec![4., 40., 6., 60.]]
    );
    assert_eq!(values_of(&subtrahend), vec![vec![2., 20.], vec![5., 50.]]);
}

#[test]
fn subtract_operands_report_selection_errors() {
    let dataset = dataset_of(vec![vec![1., 10., 2., 20.]]);
    let out_of_range = SubtractTransform {
        subtrahend: 1,
        minuends: Some(vec![2, 5]),
        direct: true,
    };
    assert_eq!(
        out_of_range.operands(&dataset).err(),
        Some(Error::OutOfRange { frame: 5 })
    );
    let none = SubtractTransform {
        subtrahend: 1,
        minuends: Some(vec![]),
        direct: true,
    };
    assert_eq!(none.operands(&dataset).err(), Some(Error::EmptySelection));
    let bad_subtrahend = SubtractTransform {
        subtrahend: 3,
        minuends: Some(vec![2]),
        direct: true,
    };
    assert_eq!(
        bad_subtrahend.operands(&dataset).err(),
        Some(Error::OutOfRange { frame: 3 })
    );
    let bad_default = SubtractTransform {
        subtrahend: 0,
        minuends: None,
        direct: true,
    };
    assert_eq!(
        bad_default.operands(&dataset).err(),
        Some(Error::OutOfRange { frame: 0 })
    );
    let single = dataset_of(vec![vec![1., 10.]]);
    let alone = SubtractTransform {
        subtrahend: 1,
        minuends: None,
        direct: true,
    };
    assert_eq!(alone.operands(&single).err(), Some(Error::EmptySelection));
}

fn minus(y: u64, sub: u64) -> u64 {
    (f64::from_bits(y) - f64::from_bits(sub)).to_bits()
}

// stands in for resampling: the intensities at the new x-values are the x-values themselves
fn onto(xs: &Vec<u64>, ys: &Vec<u64>, axis: &Vec<u64>) -> Vec<u64> {
    assert_eq!(xs.len(), ys.len());
    axis.clone()
}

#[test]
fn subtract_takes_the_subtrahend_from_all_other_frames() {
    let mut dataset = dataset_of(vec![
        vec![1., 10., 2., 20., 3., 30.],
        vec![4., 40., 5., 50., 6., 65.],
    ]);
    let t = SubtractTransform {
        subtrahend: 2,
        minuends: None,
        direct: true,
    };
    assert_eq!(t.transform(&mut dataset, &onto, &minus), Ok(()));
    assert_eq!(
        values_of(dataset.data()),
        vec![vec![1., -10., 3., 10.], vec![4., -10., 6., 15.]]
    );
    assert_eq!(dataset.previous_comments(), "first");
}

#[test]
fn subtract_brings_the_minuends_onto_the_axis_of_the_subtrahend() {
    let mut dataset = dataset_of(vec![
        vec![1., 10., 2., 20., 3., 30.],
        vec![4., 40., 5., 50., 6., 65.],
    ]);
    let t = SubtractTransform {
        subtrahend: 3,
        minuends: Some(vec![2, 1]),
        direct: false,
    };
    assert_eq!(t.transform(&mut dataset, &onto, &minus), Ok(()));
    assert_eq!(
        values_of(dataset.data()),
        vec![vec![3., -27., 3., -27.], vec![6., -59., 6., -59.]]
    );
}

#[test]
fn subtract_hands_each_minuend_to_the_resampling() {
    let mut dataset = dataset_of(vec![vec![1., 10., 2., 20., 3., 30.]]);
    let seen = std::cell::RefCell::new(Vec::new());
    let resample = |xs: &Vec<u64>, ys: &Vec<u64>, axis: &Vec<u64>| {
        seen.borrow_mut().push((
            f64::from_bits(xs[0]),
            f64::from_bits(ys[0]),
            f64::from_bits(axis[0]),
        ));
        ys.clone()
    };
    let t = SubtractTransform {
        subtrahend: 1,
        minuends: None,
        direct: false,
    };
    assert_eq!(t.transform(&mut dataset, &resample, &minus), Ok(()));
    assert_eq!(seen.into_inner(), vec![(2., 20., 1.), (3., 30., 1.)]);
    assert_eq!(values_of(dataset.data()), vec![vec![1., 10., 1., 20.]]);
}

#[test]
fn subtract_refuses_and_changes_nothing() {
    let rows = vec![vec![1., 10., 2., 20.]];
    let mut dataset = dataset_of(rows.clone());
    let own = SubtractTransform {
        subtrahend: 1,
        minuends: Some(vec![1]),
        direct: false,
    };
    assert_eq!(
        own.transform(&mut dataset, &onto, &minus),
        Err(Error::SubtrahendAmongMinuends)
    );
    let far = SubtractTransform {
        subtrahend: 1,
        minuends: Some(vec![2, 3]),
        direct: false,
    };
    assert_eq!(
        far.transform(&mut dataset, &onto, &minus),
        Err(Error::OutOfRange { frame: 3 })
    );
    let short = |_xs: &Vec<u64>, _ys: &Vec<u64>, _axis: &Vec<u64>| Vec::new();
    let t = SubtractTransform {
        subtrahend: 1,
        minuends: Some(vec![2]),
        direct: false,
    };
    assert_eq!(
        t.transform(&mut dataset, &short, &minus),
        Err(Error::ShapeMismatch)
    );
    assert_eq!(values_of(dataset.data()), rows);
    let direct = SubtractTransform {
        subtrahend: 1,
        minuends: Some(vec![2]),
        direct: true,
    };
    assert_eq!(direct.transform(&mut dataset, &short, &minus), Ok(()));
    assert_eq!(values_of(dataset.data()), vec![vec![2., 10.]]);
}

#[test]
fn append_adds_frames_or_rows() {
    let other = dataset_of(vec![vec![5., 6.], vec![7., 8.]]);
    let mut beside = dataset_of(vec![vec![1., 2.], vec![3., 4.]]);
    let t = AppendTransform {
        filepath: None,
        comment: '#',
        delimiter: ',',
        horizontal: false,
    };
    assert_eq!(t.transform(&mut beside, &other), Ok(()));
    assert_eq!(
        values_of(beside.data()),
        vec![vec![1., 2., 5., 6.], vec![3., 4., 7., 8.]]
    );
    assert_eq!(beside.previous_comments(), "first\nfirst");
    let mut below = dataset_of(vec![vec![1., 2.], vec![3., 4.]]);
    let t = AppendTransform {
        filepath: Some("more.csv".to_string()),
        comment: '#',
        delimiter: ',',
        horizontal: true,
    };
    assert_eq!(t.transform(&mut below, &other), Ok(()));
    assert_eq!(
        values_of(below.data()),
        vec![vec![1., 2.], vec![3., 4.], vec![5., 6.], vec![7., 8.]]
    );
}

#[test]
fn append_reports_shapes_that_do_not_fit() {
    let other = dataset_of(vec![vec![5., 6.]]);
    let mut dataset = dataset_of(vec![vec![1., 2.], vec![3., 4.]]);
    let t = AppendTransform {
        filepath: None,
        comment: '#',
        delimiter: ',',
        horizontal: false,
    };
    assert_eq!(t.transform(&mut dataset, &other), Err(Error::ShapeMismatch));
    assert_eq!(
        values_of(dataset.data()),
        vec![vec![1., 2.], vec![3., 4.]]
    );
    assert_eq!(dataset.previous_comments(), "first\nfirst");
}

#[test]
fn average_leaves_one_frame() {
    let mut dataset = dataset_of(vec![vec![1., 10., 2., 30.], vec![3., 20., 4., 40.]]);
    assert_eq!(AverageTransform {}.transform(&mut dataset, mean), Ok(()));
    assert_eq!(
        values_of(dataset.data()),
        vec![vec![1., 20.], vec![3., 30.]]
    );
    assert_eq!(dataset.previous_comments(), "first");
}

#[test]
fn average_hands_out_the_intensities_in_frame_order() {
    let mut dataset = dataset_of(vec![vec![1., 10., 2., 30., 3., 50.]]);
    let last = |values: &Vec<u64>| {
        assert_eq!(
            values.iter().map(|v| f64::from_bits(*v)).collect::<Vec<f64>>(),
            vec![10., 30., 50.]
        );
        values[2]
    };
    assert_eq!(AverageTransform {}.transform(&mut dataset, last), Ok(()));
    assert_eq!(values_of(dataset.data()), vec![vec![1., 50.]]);
}

#[test]
fn average_needs_a_frame() {
    let mut empty = Dataset::default();
    assert_eq!(
        AverageTransform {}.transform(&mut empty, mean),
        Err(Error::InsufficientData)
    );
}

fn clamp_to_20(values: &Vec<u64>) -> Result<Vec<u64>, Error> {
    Ok(values
        .iter()
        .map(|v| f64::from_bits(*v).min(20.0).to_bits())
        .collect())
}

#[test]
fn finning_needs_three_frames() {
    let rows = vec![vec![1., 10., 2., 20.]];
    let mut two = dataset_of(rows.clone());
    assert_eq!(
        clip_rows(&mut two, &clamp_to_20),
        Err(Error::InsufficientData)
    );
    assert_eq!(finning(&mut two, 4, &level), Err(Error::InsufficientData));
    assert_eq!(values_of(two.data()), rows);
}

#[test]
fn clip_rows_hands_out_each_row_across_the_frames() {
    let mut dataset = dataset_of(vec![
        vec![1., 10., 2., 25., 3., 30.],
        vec![4., 40., 5., 5., 6., 6.],
    ]);
    let seen = std::cell::RefCell::new(Vec::new());
    let clip = |values: &Vec<u64>| {
        seen.borrow_mut()
            .push(values.iter().map(|v| f64::from_bits(*v)).collect::<Vec<f64>>());
        clamp_to_20(values)
    };
    assert_eq!(clip_rows(&mut dataset, &clip), Ok(()));
    assert_eq!(
        seen.into_inner(),
        vec![vec![10., 25., 30.], vec![40., 5., 6.]]
    );
    assert_eq!(
        values_of(dataset.data()),
        vec![
            vec![1., 10., 2., 20., 3., 20.],
            vec![4., 20., 5., 5., 6., 6.]
        ]
    );
}

#[test]
fn clip_rows_refuses_rows_of_another_length_and_passes_errors_on() {
    let rows = vec![vec![1., 10., 2., 25., 3., 30.]];
    let mut dataset = dataset_of(rows.clone());
    let short = |values: &Vec<u64>| Ok(values[1..].to_vec());
    assert_eq!(clip_rows(&mut dataset, &short), Err(Error::ShapeMismatch));
    let failing = |_values: &Vec<u64>| Err(Error::DomainError);
    assert_eq!(clip_rows(&mut dataset, &failing), Err(Error::DomainError));
    assert_eq!(values_of(dataset.data()), rows);
}

// the middle value of the row, and three more as the limit
fn level(values: &Vec<u64>) -> Result<(u64, u64), Error> {
    let mut sorted: Vec<f64> = values.iter().map(|v| f64::from_bits(*v)).collect();
    sorted.sort_by(|a, b| a.partial_cmp(b).unwrap());
    let median = sorted[(sorted.len() - 1) / 2];
    Ok((median.to_bits(), (median + 3.0).to_bits()))
}

fn clipped(values: &[f64], cap: usize) -> Result<Vec<f64>, Error> {
    let row: Vec<u64> = values.iter().map(|v| v.to_bits()).collect();
    clip_row(&row, cap, &level).map(|r| r.iter().map(|v| f64::from_bits(*v)).collect())
}

#[test]
fn clip_row_replaces_the_largest_value_while_it_stands_out() {
    assert_eq!(clipped(&[1., 2., 3.], 10), Ok(vec![1., 2., 3.]));
    assert_eq!(clipped(&[1., 2., 30.], 10), Ok(vec![1., 2., 2.]));
    assert_eq!(
        clipped(&[50., 1., 2., 30., 3.], 10),
        Ok(vec![3., 1., 2., 3., 3.])
    );
    assert_eq!(clipped(&[9., 9., 9.], 0), Ok(vec![9., 9., 9.]));
    assert_eq!(clipped(&[5., 2., 5.], 10), Ok(vec![5., 2., 5.]));
    assert_eq!(clipped(&[1., 6., 6., 2., 0.], 10), Ok(vec![1., 2., 2., 2., 0.]));
}

#[test]
fn clip_row_stops_after_the_allowed_replacements() {
    let row = [10., 20., 30., 40., 1., 1., 1., 1., 1.];
    assert_eq!(
        clipped(&row, 10),
        Ok(vec![1., 1., 1., 1., 1., 1., 1., 1., 1.])
    );
    assert_eq!(
        clipped(&row, 0),
        Ok(vec![10., 20., 30., 1., 1., 1., 1., 1., 1.])
    );
    assert_eq!(
        clipped(&row, 1),
        Ok(vec![10., 20., 1., 1., 1., 1., 1., 1., 1.])
    );
    assert_eq!(
        clipped(&row, 2),
        Ok(vec![10., 1., 1., 1., 1., 1., 1., 1., 1.])
    );
}

#[test]
fn clip_row_fails_where_there_is_no_largest_value() {
    let row: Vec<u64> = [1., f64::NAN, 3.].iter().map(|v: &f64| v.to_bits()).collect();
    assert_eq!(
        clip_row(&row, 10, &level_of_numbers),
        Err(Error::DomainError)
    );
    let failing = |_row: &Vec<u64>| Err(Error::InsufficientData);
    assert_eq!(
        clip_row(&vec![1, 2, 3], 10, &failing),
        Err(Error::InsufficientData)
    );
}

#[test]
fn argmax_finds_the_first_of_the_largest() {
    let at = |values: &[f64]| argmax(&values.iter().map(|v| v.to_bits()).collect());
    assert_eq!(at(&[1., 3., 2.]), Some(1));
    assert_eq!(at(&[3., 3., 2.]), Some(0));
    assert_eq!(at(&[-3., -1., -2.]), Some(1));
    assert_eq!(at(&[-0., 0.]), Some(0));
    assert_eq!(at(&[7.]), Some(0));
    assert_eq!(at(&[]), None);
    assert_eq!(at(&[1., f64::NAN]), None);
    assert_eq!(at(&[f64::NAN, 1.]), None);
    assert_eq!(at(&[f64::NEG_INFINITY, f64::INFINITY, 1.]), Some(1));
}

#[test]
fn finning_clips_every_row() {
    let mut dataset = dataset_of(vec![
        vec![1., 10., 2., 11., 3., 90.],
        vec![4., 40., 5., 5., 6., 6.],
        vec![7., 1., 8., 2., 9., 3.],
    ]);
    assert_eq!(finning(&mut dataset, 100, &level), Ok(()));
    assert_eq!(
        values_of(dataset.data()),
        vec![
            vec![1., 10., 2., 11., 3., 11.],
            vec![4., 6., 5., 5., 6., 6.],
            vec![7., 1., 8., 2., 9., 3.],
        ]
    );
    let rows = vec![vec![1., 10., 2., f64::NAN, 3., 90.]];
    let mut bad = dataset_of(rows);
    assert_eq!(finning(&mut bad, 100, &level_of_numbers), Err(Error::DomainError));
    assert_eq!(f64::from_bits(bad.data().get(0, 5).unwrap()), 90.);
}

fn level_of_numbers(values: &Vec<u64>) -> Result<(u64, u64), Error> {
    let numbers: Vec<u64> = values
        .iter()
        .filter(|v| !f64::from_bits(**v).is_nan())
        .cloned()
        .collect();
    level(&numbers)
}

#[test]
fn count_conversion_hands_out_the_step_of_each_row() {
    let mut dataset = dataset_of(vec![
        vec![1., 10., 10., 1.],
        vec![3., 20., 20., 2.],
        vec![7., 40., 50., 5.],
    ]);
    // divide by the width of the step
    let convert = |step: Option<(u64, u64)>, y: u64| {
        let (a, b) = step.unwrap();
        (f64::from_bits(y) / (f64::from_bits(b) - f64::from_bits(a))).to_bits()
    };
    convert_counts(&mut dataset, &convert);
    assert_eq!(
        values_of(dataset.data()),
        vec![
            vec![1., 5., 10., 0.1],
            vec![3., 5., 20., 2. / 30.],
            vec![7., 10., 50., 5. / 30.],
        ]
    );
    let mut single = dataset_of(vec![vec![1., 10., 2., 20.]]);
    convert_counts(&mut single, &|step: Option<(u64, u64)>, y: u64| {
        assert_eq!(step, None);
        (f64::from_bits(y) + 1.0).to_bits()
    });
    assert_eq!(values_of(single.data()), vec![vec![1., 11., 2., 21.]]);
}

#[test]
fn integrate_lists_frame_numbers_and_integrals() {
    let mut dataset = dataset_of(vec![vec![1., 10., 2., 20.], vec![3., 30., 4., 40.]]);
    // stands in for an integral: the bound number, the first x-value and the last intensity as digits
    let integral = |xs: &Vec<u64>, ys: &Vec<u64>, bound: usize| {
        Ok((bound as f64 * 1000. + f64::from_bits(xs[0]) * 100. + f64::from_bits(ys[1])).to_bits())
    };
    let number = |frame: usize| (frame as f64).to_bits();
    assert_eq!(integrate(&mut dataset, 3, &integral, &number), Ok(()));
    assert_eq!(
        values_of(dataset.data()),
        vec![
            vec![1., 130., 1., 1130., 1., 2130.],
            vec![2., 240., 2., 1240., 2., 2240.],
        ]
    );
    assert_eq!(dataset.previous_comments(), "first");
}

#[test]
fn integrate_stops_at_the_first_failure_and_changes_nothing() {
    let rows = vec![vec![1., 10., 2., 20.], vec![3., 30., 4., 40.]];
    let mut dataset = dataset_of(rows.clone());
    let integral = |xs: &Vec<u64>, _ys: &Vec<u64>, bound: usize| {
        if f64::from_bits(xs[0]) == 2. && bound == 1 {
            Err(Error::DomainError)
        } else {
            Ok(0)
        }
    };
    let number = |frame: usize| frame as u64;
    assert_eq!(
        integrate(&mut dataset, 2, &integral, &number),
        Err(Error::DomainError)
    );
    assert_eq!(values_of(dataset.data()), rows);
    assert_eq!(
        integrate(&mut dataset, usize::MAX, &integral, &number),
        Err(Error::ShapeMismatch)
    );
    assert_eq!(integrate(&mut dataset, 0, &integral, &number), Ok(()));
    assert_eq!(dataset.rows(), 2);
    assert_eq!(dataset.frame_count(), 0);
}

#[test]
fn store_baseline_adds_a_frame_on_the_first_axis() {
    let mut dataset = dataset_of(vec![vec![1., 10., 5., 20.], vec![3., 30., 6., 40.]]);
    let sample = |x: u64| (f64::from_bits(x) * 2.0).to_bits();
    assert_eq!(store_baseline(&mut dataset, &sample), Ok(()));
    assert_eq!(
        values_of(dataset.data()),
        vec![
            vec![1., 10., 5., 20., 1., 2.],
            vec![3., 30., 6., 40., 3., 6.]
        ]
    );
    let mut empty = Dataset::default();
    assert_eq!(
        store_baseline(&mut empty, &sample),
        Err(Error::InsufficientData)
    );
}

#[test]
fn align_puts_every_frame_on_the_first_axis() {
    let mut dataset = dataset_of(vec![
        vec![1., 10., 5., 20., 7., 70.],
        vec![2., 30., 6., 40., 8., 80.],
    ]);
    // stands in for an alignment: the sum of the reference and of the frame
    let align = |xs: &Vec<u64>, ys: &Vec<u64>, frame: &Vec<u64>| {
        assert_eq!(f64::from_bits(xs[1]), 2.);
        Ok(ys
            .iter()
            .zip(frame.iter())
            .map(|(a, b)| (f64::from_bits(*a) + f64::from_bits(*b)).to_bits())
            .collect())
    };
    assert_eq!(align_frames(&mut dataset, &align), Ok(()));
    assert_eq!(
        values_of(dataset.data()),
        vec![
            vec![1., 10., 1., 30., 1., 80.],
            vec![2., 30., 2., 70., 2., 110.]
        ]
    );
}

#[test]
fn align_stops_at_the_first_failure() {
    let mut dataset = dataset_of(vec![vec![1., 10., 5., 20., 7., 70., 9., 90.]]);
    let align = |_xs: &Vec<u64>, _ys: &Vec<u64>, frame: &Vec<u64>| {
        if f64::from_bits(frame[0]) == 70. {
            Err(Error::OptimizationFailure)
        } else {
            Ok(frame.clone())
        }
    };
    assert_eq!(
        align_frames(&mut dataset, &align),
        Err(Error::OptimizationFailure)
    );
    assert_eq!(
        values_of(dataset.data()),
        vec![vec![1., 10., 1., 20., 7., 70., 9., 90.]]
    );
    let short = |_xs: &Vec<u64>, _ys: &Vec<u64>, _frame: &Vec<u64>| Ok(Vec::new());
    assert_eq!(
        align_frames(&mut dataset, &short),
        Err(Error::ShapeMismatch)
    );
    let mut single = dataset_of(vec![vec![1., 10.]]);
    assert_eq!(align_frames(&mut single, &short), Ok(()));
    assert_eq!(align_frames(&mut Dataset::default(), &short), Ok(()));
}

#[test]
fn mask_replaces_flagged_samples_by_the_row_mean() {
    let mut dataset = dataset_of(vec![
        vec![1., 10., 1., 20., 1., 60.],
        vec![2., 11., 2., 21., 2., 31.],
        vec![3., 12., 3., 22., 3., 32.],
    ]);
    let t = MaskTransform {
        mask: vec![
            Pair { a: 3, b: 1 },
            Pair { a: 1, b: 3 },
            Pair { a: 2, b: 3 },
            Pair { a: 4, b: 1 },
            Pair { a: 1, b: 4 },
            Pair { a: 0, b: 1 },
            Pair { a: 1, b: 0 },
        ],
    };
    let skipped = t.transform(&mut dataset, mean);
    assert_eq!(skipped, Vec::<usize>::new());
    assert_eq!(
        values_of(dataset.data()),
        vec![
            vec![1., 10., 1., 20., 1., 15.],
            vec![2., 11., 2., 21., 2., 31.],
            vec![3., 32., 3., 32., 3., 32.],
        ]
    );
}

#[test]
fn mask_skips_rows_without_anything_left() {
    let mut dataset = dataset_of(vec![vec![1., 10., 1., 20.], vec![2., 11., 2., 21.]]);
    let t = MaskTransform {
        mask: vec![
            Pair { a: 1, b: 2 },
            Pair { a: 2, b: 2 },
            Pair { a: 2, b: 1 },
        ],
    };
    let skipped = t.transform(&mut dataset, mean);
    assert_eq!(skipped, vec![2]);
    assert_eq!(
        values_of(dataset.data()),
        vec![vec![1., 10., 1., 10.], vec![2., 11., 2., 21.]]
    );
    assert!(t.flags(2, 1));
    assert!(!t.flags(1, 1));
}

fn largest(_xs: &Vec<u64>, ys: &Vec<u64>) -> Result<u64, Error> {
    let max = ys
        .iter()
        .map(|y| f64::from_bits(*y))
        .fold(f64::NEG_INFINITY, f64::max);
    if max > 0.0 {
        Ok(max.to_bits())
    } else {
        Err(Error::DomainError)
    }
}

fn divide(y: u64, by: u64) -> u64 {
    (f64::from_bits(y) / f64::from_bits(by)).to_bits()
}

#[test]
fn normalize_divides_each_targeted_frame_by_its_own_norm() {
    let mut dataset = dataset_of(vec![
        vec![1., 10., 1., 8., 1., 5.],
        vec![2., 20., 2., 4., 2., 50.],
    ]);
    let r = normalize(&mut dataset, &Some(vec![3, 1]), false, &largest, &divide);
    assert_eq!(r, Ok(()));
    assert_eq!(
        values_of(dataset.data()),
        vec![
            vec![1., 0.5, 1., 8., 1., 0.1],
            vec![2., 1., 2., 4., 2., 1.]
        ]
    );
    let r = normalize(&mut dataset, &None, false, &largest, &divide);
    assert_eq!(r, Ok(()));
    assert_eq!(
        values_of(dataset.data()),
        vec![
            vec![1., 0.5, 1., 1., 1., 0.1],
            vec![2., 1., 2., 0.5, 2., 1.]
        ]
    );
}

#[test]
fn normalize_stops_at_the_first_frame_without_a_norm() {
    let mut dataset = dataset_of(vec![
        vec![1., 10., 1., -8., 1., 5.],
        vec![2., 20., 2., -4., 2., 50.],
    ]);
    let r = normalize(&mut dataset, &None, false, &largest, &divide);
    assert_eq!(r, Err(Error::DomainError));
    assert_eq!(
        values_of(dataset.data()),
        vec![
            vec![1., 0.5, 1., -8., 1., 5.],
            vec![2., 1., 2., -4., 2., 50.]
        ]
    );
}

#[test]
fn normalize_can_be_idle() {
    let rows = vec![vec![1., 10., 1., 8.], vec![2., 20., 2., -4.]];
    let mut dataset = dataset_of(rows.clone());
    assert_eq!(
        normalize(&mut dataset, &None, true, &largest, &divide),
        Ok(())
    );
    assert_eq!(values_of(dataset.data()), rows);
    let mut bad = dataset_of(vec![vec![1., -1.]]);
    assert_eq!(
        normalize(&mut bad, &None, true, &largest, &divide),
        Err(Error::DomainError)
    );
}
