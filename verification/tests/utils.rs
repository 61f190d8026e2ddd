use raman_tools::common::Pair;
use raman_tools::dataset::Dataset;
use raman_tools::error::Error;
use raman_tools::grid::Grid;
use raman_tools::transformations::align::align_by_shift;
use raman_tools::transformations::average::AverageTransform;
use raman_tools::transformations::mask_pixels::MaskTransform;
use raman_tools::transformations::integrate::integrate_windows;
use raman_tools::transformations::normalize::normalize_to;
use raman_tools::transformations::offset::add_offset;
use raman_tools::transformations::subtract::SubtractTransform;
use raman_tools::utils::{
    nearest_index, sample_eq, sample_is_nan, sample_le, sample_lt, Arithmetic,
};

fn lininterp(x: u64, x0: u64, x1: u64, y0: u64, y1: u64) -> u64 {
    let (x, x0, x1, y0, y1) = (
        f64::from_bits(x),
        f64::from_bits(x0),
        f64::from_bits(x1),
        f64::from_bits(y0),
        f64::from_bits(y1),
    );
    ((y1 * (x - x0) + y0 * (x1 - x)) / (x1 - x0)).to_bits()
}

fn singletrapz(x0: u64, x1: u64, y0: u64, y1: u64) -> u64 {
    (0.5 * f64::abs(f64::from_bits(x1) - f64::from_bits(x0))
        * (f64::from_bits(y1) + f64::from_bits(y0)))
    .to_bits()
}

fn add(a: u64, b: u64) -> u64 {
    (f64::from_bits(a) + f64::from_bits(b)).to_bits()
}

fn negate(a: u64) -> u64 {
    (-f64::from_bits(a)).to_bits()
}

fn distance(a: u64, b: u64) -> u64 {
    (f64::from_bits(a) - f64::from_bits(b)).abs().to_bits()
}

type Ops = Arithmetic<
    fn(u64, u64, u64, u64, u64) -> u64,
    fn(u64, u64, u64, u64) -> u64,
    fn(u64, u64) -> u64,
    fn(u64) -> u64,
>;

fn ops() -> Ops {
    Arithmetic {
        nan: f64::NAN.to_bits(),
        zero: 0.0f64.to_bits(),
        lininterp,
        singletrapz,
        add,
        negate,
    }
}

fn bits(v: &[f64]) -> Vec<u64> {
    v.iter().map(|x| x.to_bits()).collect()
}

fn trapz(x: &[f64], y: &[f64], left: f64, right: f64, local_baseline: bool) -> Result<f64, Error> {
    ops()
        .trapz(&bits(x), &bits(y), left.to_bits(), right.to_bits(), local_baseline)
        .map(f64::from_bits)
}

fn resample(xs: &[f64], ys: &[f64], grid: &[f64]) -> Vec<f64> {
    ops()
        .linear_resample_array(&bits(xs), &bits(ys), &bits(grid))
        .iter()
        .map(|b| f64::from_bits(*b))
        .collect()
}

fn nearest(x: &[f64], xi: f64) -> Option<usize> {
    let d: fn(u64, u64) -> u64 = distance;
    nearest_index(&bits(x), xi.to_bits(), &d)
}

#[test]
fn utils_test_parse_header() {
    let x: Vec<f64> = (0..10000).map(|i| i as f64 * 0.001).collect();
    let y: Vec<f64> = x.iter().map(|xi| f64::exp(3.0 * xi)).collect();
    let area: f64 = trapz(&x, &y, 3.15, 8.55, false).unwrap();
    let area_analytic = 1.0 / 3.0 * (f64::exp(3.0 * 8.55) - f64::exp(3.0 * 3.15));
    assert!((area - area_analytic).abs() <= 1e-5 * area_analytic);
}

#[test]
fn test_linear_resample() {
    let xs = [1., 2., 3., 4., 5.];
    let ys = [1., 2., 3., 4., 5.];
    let grid = [1.5, 2.5, 2.0, 5.0];
    let res = resample(&xs, &ys, &grid);
    assert_eq!(res, vec![1.5, 2.5, 2.0, 5.0]);
}

#[test]
fn resample_gives_no_number_outside_the_curve() {
    let xs = [1., 2., 4.];
    let ys = [10., 20., 0.];
    let res = resample(&xs, &ys, &[0.5, 1.0, 3.0, 4.0, 4.5, f64::NAN]);
    assert!(res[0].is_nan());
    assert_eq!(res[1], 10.);
    assert_eq!(res[2], 10.);
    assert_eq!(res[3], 0.);
    assert!(res[4].is_nan());
    assert!(res[5].is_nan());
    assert!(resample(&[], &[], &[1.0])[0].is_nan());
    assert!(resample(&[1.0], &[1.0], &[1.0])[0].is_nan());
    assert_eq!(resample(&xs, &ys, &[]), Vec::<f64>::new());
    // a point without a y-value is no end of a segment
    let res = resample(&[1., 2., 3.], &[10., 20.], &[1.5, 2.0, 2.5]);
    assert_eq!(res[0], 15.);
    assert_eq!(res[1], 20.);
    assert!(res[2].is_nan());
}

#[test]
fn trapz_of_a_straight_line() {
    let x = [0., 1., 2., 3., 4.];
    let y = [1., 3., 5., 7., 9.];
    // the integral of 2x + 1 from a to b is b*b + b - a*a - a
    assert_eq!(trapz(&x, &y, 0., 4., false), Ok(20.));
    assert_eq!(trapz(&x, &y, 1., 3., false), Ok(10.));
    assert_eq!(trapz(&x, &y, 3., 1., false), Ok(10.));
    assert_eq!(trapz(&x, &y, 0.5, 2.5, false), Ok(8.));
    assert_eq!(trapz(&x, &y, 1.25, 1.75, false), Ok(2.));
    // the window is cut to the range of the data
    assert_eq!(trapz(&x, &y, -5., 1., false), Ok(2.));
    assert_eq!(trapz(&x, &y, 3., 50., false), Ok(8.));
    assert_eq!(trapz(&x, &y, -5., 50., false), Ok(20.));
    // below a straight line nothing is left above the local baseline
    assert_eq!(trapz(&x, &y, 0.5, 2.5, true), Ok(0.));
}

#[test]
fn trapz_takes_the_local_baseline_off() {
    let x = [0., 1., 2., 3., 4.];
    let y = [0., 0., 4., 0., 0.];
    assert_eq!(trapz(&x, &y, 1., 3., false), Ok(4.));
    assert_eq!(trapz(&x, &y, 1., 3., true), Ok(4.));
    assert_eq!(trapz(&x, &y, 1.5, 3., false), Ok(3.5));
    // the line from (1.5, 2) to (3, 0) lies above an area of 1.5
    assert_eq!(trapz(&x, &y, 1.5, 3., true), Ok(2.));
}

#[test]
fn trapz_says_why_there_is_no_integral() {
    let x = [0., 1., 2.];
    let y = [1., 1., 1.];
    assert_eq!(trapz(&x, &[1., 1.], 0., 1., false), Err(Error::ShapeMismatch));
    assert_eq!(trapz(&[0.], &[1.], 0., 1., false), Err(Error::InsufficientData));
    assert_eq!(trapz(&[], &[], 0., 1., false), Err(Error::InsufficientData));
    assert_eq!(trapz(&x, &y, 2., 3., false), Err(Error::DomainError));
    assert_eq!(trapz(&x, &y, -3., 0., false), Err(Error::DomainError));
    assert_eq!(trapz(&x, &y, 5., 3., false), Err(Error::DomainError));
    // with a local baseline the ends of the window must lie on the curve
    assert_eq!(trapz(&x, &y, -1., 1., false), Ok(1.));
    assert_eq!(trapz(&x, &y, -1., 1., true), Err(Error::DomainError));
    assert_eq!(trapz(&x, &y, 1., 3., true), Err(Error::DomainError));
    assert_eq!(trapz(&x, &y, 0., 2., true), Ok(0.));
}

#[test]
fn nearest_index_finds_the_closest_sample() {
    assert_eq!(nearest(&[1., 2., 4., 8.], 3.1), Some(2));
    assert_eq!(nearest(&[1., 2., 4., 8.], 2.9), Some(1));
    assert_eq!(nearest(&[1., 2., 4., 8.], 3.0), Some(1));
    assert_eq!(nearest(&[1., 2., 4., 8.], -100.), Some(0));
    assert_eq!(nearest(&[1., 2., 4., 8.], 100.), Some(3));
    assert_eq!(nearest(&[f64::NAN, 2., f64::NAN, 1.9, f64::NAN], 2.), Some(1));
    assert_eq!(nearest(&[5., f64::NAN], 0.), Some(0));
    assert_eq!(nearest(&[f64::NAN, f64::NAN], 0.), None);
    assert_eq!(nearest(&[], 0.), None);
    assert_eq!(nearest(&[1., 2.], f64::NAN), None);
}

#[test]
fn samples_compare_like_the_numbers_they_stand_for() {
    let values = [
        0.0,
        -0.0,
        1.0,
        -1.0,
        1.5,
        -1.5,
        f64::MIN_POSITIVE,
        -f64::MIN_POSITIVE,
        5e-324,
        -5e-324,
        f64::MAX,
        f64::MIN,
        f64::INFINITY,
        f64::NEG_INFINITY,
        f64::NAN,
        -f64::NAN,
        f64::from_bits(0x7ff0_0000_0000_0001),
        f64::from_bits(0xfff0_0000_0000_0001),
        f64::from_bits(0x7fff_ffff_ffff_ffff),
        f64::from_bits(0xffff_ffff_ffff_ffff),
        123456.789,
        -0.001,
    ];
    for a in values {
        assert_eq!(sample_is_nan(a.to_bits()), a.is_nan());
        for b in values {
            assert_eq!(sample_lt(a.to_bits(), b.to_bits()), a < b);
            assert_eq!(sample_le(a.to_bits(), b.to_bits()), a <= b);
            assert_eq!(sample_eq(a.to_bits(), b.to_bits()), a == b);
        }
    }
}

fn dataset_of(rows: Vec<Vec<f64>>) -> Dataset {
    let samples: Vec<Vec<u64>> = rows.iter().map(|r| bits(r)).collect();
    Dataset::new(
        Grid::from_rows(&samples).unwrap(),
        String::new(),
        String::new(),
    )
    .unwrap()
}

fn values_of(d: &Dataset) -> Vec<Vec<f64>> {
    d.data()
        .to_rows()
        .iter()
        .map(|r| r.iter().map(|v| f64::from_bits(*v)).collect())
        .collect()
}

fn window(a: f64, b: f64) -> Pair<u64> {
    Pair {
        a: a.to_bits(),
        b: b.to_bits(),
    }
}

fn divide(y: u64, by: u64) -> u64 {
    (f64::from_bits(y) / f64::from_bits(by)).to_bits()
}

fn minus(y: u64, sub: u64) -> u64 {
    (f64::from_bits(y) - f64::from_bits(sub)).to_bits()
}

#[test]
fn integrate_windows_lists_the_integrals_of_each_frame() {
    let mut dataset = dataset_of(vec![
        vec![0., 1., 0., 0.],
        vec![1., 3., 1., 2.],
        vec![2., 5., 2., 4.],
    ]);
    let number = |frame: usize| (frame as f64).to_bits();
    let windows = vec![window(0., 2.), window(1.5, 0.5)];
    assert_eq!(
        integrate_windows(&mut dataset, &windows, false, &ops(), &number),
        Ok(())
    );
    assert_eq!(
        values_of(&dataset),
        vec![vec![1., 6., 1., 3.], vec![2., 4., 2., 2.]]
    );
}

#[test]
fn integrate_windows_fails_where_a_window_misses_the_data() {
    let rows = vec![vec![0., 1.], vec![1., 3.], vec![2., 5.]];
    let mut dataset = dataset_of(rows.clone());
    let number = |frame: usize| (frame as f64).to_bits();
    let windows = vec![window(0., 2.), window(5., 6.)];
    assert_eq!(
        integrate_windows(&mut dataset, &windows, false, &ops(), &number),
        Err(Error::DomainError)
    );
    assert_eq!(values_of(&dataset), rows);
    let mut short = dataset_of(vec![vec![0., 1.]]);
    assert_eq!(
        integrate_windows(&mut short, &windows, false, &ops(), &number),
        Err(Error::InsufficientData)
    );
}

#[test]
fn normalize_to_the_intensity_nearest_an_x_value() {
    let mut dataset = dataset_of(vec![
        vec![0., 1., 0., 10.],
        vec![1., 2., 1., 20.],
        vec![2., 4., 2., 40.],
    ]);
    let d: fn(u64, u64) -> u64 = distance;
    let r = normalize_to(
        &mut dataset,
        1.2f64.to_bits(),
        None,
        false,
        &Some(vec![2]),
        false,
        &ops(),
        &d,
        &divide,
    );
    assert_eq!(r, Ok(()));
    assert_eq!(
        values_of(&dataset),
        vec![
            vec![0., 1., 0., 0.5],
            vec![1., 2., 1., 1.],
            vec![2., 4., 2., 2.],
        ]
    );
}

#[test]
fn normalize_to_the_area_between_two_x_values() {
    let mut dataset = dataset_of(vec![
        vec![0., 1., 0., 10.],
        vec![1., 1., 1., 10.],
        vec![2., 1., 2., 30.],
    ]);
    let d: fn(u64, u64) -> u64 = distance;
    let r = normalize_to(
        &mut dataset,
        0f64.to_bits(),
        Some(2f64.to_bits()),
        false,
        &None,
        false,
        &ops(),
        &d,
        &divide,
    );
    assert_eq!(r, Ok(()));
    assert_eq!(
        values_of(&dataset),
        vec![
            vec![0., 0.5, 0., 1. / 3.],
            vec![1., 0.5, 1., 1. / 3.],
            vec![2., 0.5, 2., 1.],
        ]
    );
}

#[test]
fn normalize_to_fails_without_a_norm() {
    let rows = vec![vec![f64::NAN, 1., 0., 10.], vec![f64::NAN, 2., 1., 20.]];
    let expected = vec![vec![1., 0.], vec![2., 1.]];
    let mut dataset = dataset_of(rows.clone());
    let d: fn(u64, u64) -> u64 = distance;
    let r = normalize_to(
        &mut dataset,
        1f64.to_bits(),
        None,
        false,
        &Some(vec![2, 1]),
        false,
        &ops(),
        &d,
        &divide,
    );
    assert_eq!(r, Err(Error::DomainError));
    let after = values_of(&dataset);
    assert_eq!(vec![after[0][1], after[0][2]], expected[0]);
    assert_eq!(vec![after[1][1], after[1][2]], expected[1]);
    assert_eq!(vec![after[0][3], after[1][3]], vec![10., 20.]);
    let mut far = dataset_of(vec![vec![0., 1.], vec![1., 2.]]);
    let r = normalize_to(
        &mut far,
        5f64.to_bits(),
        Some(7f64.to_bits()),
        false,
        &None,
        true,
        &ops(),
        &d,
        &divide,
    );
    assert_eq!(r, Err(Error::DomainError));
}

#[test]
fn subtract_resamples_onto_the_axis_of_the_subtrahend() {
    let mut dataset = dataset_of(vec![
        vec![0., 0., 0.5, 100.],
        vec![1., 10., 1.5, 100.],
        vec![2., 20., 2.5, 100.],
    ]);
    let t = SubtractTransform {
        subtrahend: 2,
        minuends: None,
        direct: false,
    };
    assert_eq!(t.subtract(&mut dataset, &ops(), &minus), Ok(()));
    let after = values_of(&dataset);
    assert_eq!(after[0], vec![0.5, -95.]);
    assert_eq!(after[1], vec![1.5, -85.]);
    assert_eq!(after[2][0], 2.5);
    assert!(after[2][1].is_nan());
    let mut dataset = dataset_of(vec![vec![0., 0., 0.5, 100.], vec![1., 10., 1.5, 90.]]);
    let direct = SubtractTransform {
        subtrahend: 2,
        minuends: Some(vec![1]),
        direct: true,
    };
    assert_eq!(direct.subtract(&mut dataset, &ops(), &minus), Ok(()));
    assert_eq!(values_of(&dataset), vec![vec![0., -100.], vec![1., -80.]]);
    let own = SubtractTransform {
        subtrahend: 1,
        minuends: Some(vec![1]),
        direct: false,
    };
    assert_eq!(
        own.subtract(&mut dataset, &ops(), &minus),
        Err(Error::SubtrahendAmongMinuends)
    );
}

#[test]
fn align_by_shift_moves_each_frame_along_the_axis() {
    let mut dataset = dataset_of(vec![
        vec![0., 0., 10., 0.],
        vec![1., 5., 11., 10.],
        vec![2., 0., 12., 20.],
        vec![3., 0., 13., 30.],
    ]);
    // every frame is moved one step to the right
    let shift = |_reference: &Vec<u64>, _frame: &Vec<u64>| Ok(1.0f64.to_bits());
    assert_eq!(align_by_shift(&mut dataset, &ops(), &shift), Ok(()));
    let after = values_of(&dataset);
    assert_eq!(
        after.iter().map(|r| r[2]).collect::<Vec<f64>>(),
        vec![0., 1., 2., 3.]
    );
    assert!(after[0][3].is_nan());
    assert_eq!(
        after[1..].iter().map(|r| r[3]).collect::<Vec<f64>>(),
        vec![0., 10., 20.]
    );
    assert_eq!(
        after.iter().map(|r| r[1]).collect::<Vec<f64>>(),
        vec![0., 5., 0., 0.]
    );
    let failing = |_reference: &Vec<u64>, _frame: &Vec<u64>| Err(Error::OptimizationFailure);
    assert_eq!(
        align_by_shift(&mut dataset, &ops(), &failing),
        Err(Error::OptimizationFailure)
    );
}

fn over(sum: u64, count: usize) -> u64 {
    (f64::from_bits(sum) / count as f64).to_bits()
}

#[test]
fn sums_and_means_add_up_from_zero() {
    let q: fn(u64, usize) -> u64 = over;
    assert_eq!(f64::from_bits(ops().sum_of(&bits(&[1., 2., 4.5]))), 7.5);
    assert_eq!(f64::from_bits(ops().sum_of(&bits(&[]))), 0.);
    assert_eq!(f64::from_bits(ops().mean(&bits(&[1., 2., 4.5]), &q)), 2.5);
    assert_eq!(f64::from_bits(ops().mean(&bits(&[8.]), &q)), 8.);
    assert!(f64::from_bits(ops().mean(&bits(&[]), &q)).is_nan());
    // additions are made one after the other, first to last
    let values = [1e16, 1., -1e16, 1.];
    assert_eq!(f64::from_bits(ops().sum_of(&bits(&values))), 1.);
}

#[test]
fn average_takes_the_mean_of_each_row() {
    let q: fn(u64, usize) -> u64 = over;
    let mut dataset = dataset_of(vec![
        vec![1., 10., 2., 30., 3., 50.],
        vec![4., 20., 5., 40., 6., 30.],
    ]);
    assert_eq!(AverageTransform {}.average(&mut dataset, &ops(), &q), Ok(()));
    assert_eq!(values_of(&dataset), vec![vec![1., 30.], vec![4., 30.]]);
    assert_eq!(
        AverageTransform {}.average(&mut Dataset::default(), &ops(), &q),
        Err(Error::InsufficientData)
    );
}

#[test]
fn mask_pixels_puts_the_mean_of_the_other_frames() {
    let q: fn(u64, usize) -> u64 = over;
    let mut dataset = dataset_of(vec![
        vec![1., 10., 1., 20., 1., 60.],
        vec![2., 11., 2., 21., 2., 31.],
    ]);
    let t = MaskTransform {
        mask: vec![
            Pair { a: 3, b: 1 },
            Pair { a: 1, b: 2 },
            Pair { a: 2, b: 2 },
            Pair { a: 3, b: 2 },
            Pair { a: 9, b: 9 },
        ],
    };
    assert_eq!(t.mask_pixels(&mut dataset, &ops(), &q), vec![2]);
    assert_eq!(
        values_of(&dataset),
        vec![
            vec![1., 10., 1., 20., 1., 15.],
            vec![2., 11., 2., 21., 2., 31.],
        ]
    );
    let stray = t.ignored(&dataset);
    assert_eq!(stray.len(), 1);
    assert_eq!((stray[0].a, stray[0].b), (9, 9));
}

#[test]
fn add_offset_adds_to_the_targeted_intensities() {
    let mut dataset = dataset_of(vec![vec![1., 10., 2., 20.], vec![3., 30., 4., 40.]]);
    assert_eq!(
        add_offset(&mut dataset, &Some(vec![2]), 0.5f64.to_bits(), &ops()),
        Ok(())
    );
    assert_eq!(
        values_of(&dataset),
        vec![vec![1., 10., 2., 20.5], vec![3., 30., 4., 40.5]]
    );
    assert_eq!(
        add_offset(&mut dataset, &None, (-10.0f64).to_bits(), &ops()),
        Ok(())
    );
    assert_eq!(
        values_of(&dataset),
        vec![vec![1., 0., 2., 10.5], vec![3., 20., 4., 30.5]]
    );
    assert_eq!(
        add_offset(&mut dataset, &Some(vec![3]), 1.0f64.to_bits(), &ops()),
        Err(Error::OutOfRange { frame: 3 })
    );
}
