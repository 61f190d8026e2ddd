use raman_tools::dataset::Dataset;
use raman_tools::error::Error;
use raman_tools::grid::Grid;
use raman_tools::transformations::despike::{
    despike, despike_input, despike_pass, in_order, median_filter, mirror_index, replace_flagged,
    sort_samples, SpikeArithmetic,
};

fn grid_of(rows: Vec<Vec<f64>>) -> Grid {
    let bits: Vec<Vec<u64>> = rows
        .iter()
        .map(|r| r.iter().map(|v| v.to_bits()).collect())
        .collect();
    Grid::from_rows(&bits).unwrap()
}

fn values_of(g: &Grid) -> Vec<Vec<f64>> {
    g.to_rows()
        .iter()
        .map(|r| r.iter().map(|v| f64::from_bits(*v)).collect())
        .collect()
}

fn number(v: u64) -> f64 {
    f64::from_bits(v)
}

fn despike_floats(image: &mut Grid, siglim: f64, flim: f64, passes: usize) -> Result<(), Error> {
    let gain = 1.0;
    let readnoise: f64 = 6.0;
    let ops = SpikeArithmetic {
        zero: 0.0f64.to_bits(),
        siglim: siglim.to_bits(),
        flim: flim.to_bits(),
        quadrant: |c: u64, a: u64, b: u64| (2.0 * number(c) - number(a) - number(b)).to_bits(),
        add: |a: u64, b: u64| (number(a) + number(b)).to_bits(),
        signal: |l: u64, m5: u64| {
            let noise = 1.0 / gain * f64::sqrt(gain * number(m5) + readnoise.powi(2));
            (number(l) / (2.0 * noise)).to_bits()
        },
        minus: |a: u64, b: u64| (number(a) - number(b)).to_bits(),
        ratio: |a: u64, b: u64| (number(a) / number(b)).to_bits(),
    };
    ops.remove_spikes(image, passes)
}

#[test]
fn test_median_filter() {
    let array2 = grid_of(vec![
        vec![1., 1., 1.],
        vec![1., 2., 1.],
        vec![1., 1., 1.],
    ]);
    let median_filtered_array = median_filter(&array2, 3).unwrap();
    assert_eq!(
        values_of(&median_filtered_array),
        vec![vec![1., 1., 1.], vec![1., 1., 1.], vec![1., 1., 1.]]
    );
}

#[test]
fn median_filter_mirrors_the_edges() {
    let g = grid_of(vec![vec![1., 2.], vec![3., 4.]]);
    assert_eq!(
        values_of(&median_filter(&g, 3).unwrap()),
        vec![vec![2., 2.], vec![3., 3.]]
    );
    assert_eq!(values_of(&median_filter(&g, 1).unwrap()), values_of(&g));
}

#[test]
fn median_filter_takes_the_middle_of_the_whole_window() {
    let g = grid_of(vec![
        vec![9., 9., 9., 9., 9.],
        vec![9., 1., 2., 3., 9.],
        vec![9., 4., 5., 6., 9.],
        vec![9., 7., 8., 0., 9.],
        vec![9., 9., 9., 9., 9.],
    ]);
    let m = values_of(&median_filter(&g, 3).unwrap());
    assert_eq!(m[2][2], 4.);
    assert_eq!(m[0][0], 9.);
    let wide = values_of(&median_filter(&g, 5).unwrap());
    assert_eq!(wide[2][2], 9.);
}

#[test]
fn median_filter_orders_negative_numbers() {
    let g = grid_of(vec![vec![-5., 0.5, -0.25]]);
    let m = values_of(&median_filter(&g, 3).unwrap());
    assert_eq!(m, vec![vec![-5., -0.25, -0.25]]);
}

#[test]
fn median_filter_rejects_bad_input() {
    let g = grid_of(vec![vec![1., 2.], vec![3., 4.]]);
    assert_eq!(median_filter(&g, 2).err(), Some(Error::DomainError));
    assert_eq!(median_filter(&g, 0).err(), Some(Error::DomainError));
    assert_eq!(
        median_filter(&g, usize::MAX).err(),
        Some(Error::DomainError)
    );
    let empty = Grid::filled(0, 3, 0).unwrap();
    assert_eq!(
        median_filter(&empty, 3).err(),
        Some(Error::InsufficientData)
    );
}

#[test]
fn mirror_index_reflects_at_both_ends() {
    assert_eq!(mirror_index(0, 5), 0);
    assert_eq!(mirror_index(4, 5), 4);
    assert_eq!(mirror_index(-1, 5), 0);
    assert_eq!(mirror_index(-2, 5), 1);
    assert_eq!(mirror_index(-5, 5), 4);
    assert_eq!(mirror_index(-6, 5), 4);
    assert_eq!(mirror_index(5, 5), 4);
    assert_eq!(mirror_index(6, 5), 3);
    assert_eq!(mirror_index(9, 5), 0);
    assert_eq!(mirror_index(10, 5), 0);
    assert_eq!(mirror_index(-3, 1), 0);
    assert_eq!(mirror_index(3, 2), 0);
    assert_eq!(mirror_index(-3, 2), 1);
    assert_eq!(mirror_index(-4, 2), 0);
}

#[test]
fn samples_are_ordered_like_the_numbers_they_stand_for() {
    let le = |a: f64, b: f64| in_order(a.to_bits(), b.to_bits());
    assert!(le(1.0, 2.0));
    assert!(!le(2.0, 1.0));
    assert!(le(-2.0, -1.0));
    assert!(!le(-1.0, -2.0));
    assert!(le(-1.0, 0.5));
    assert!(!le(0.5, -1.0));
    assert!(le(-0.0, 0.0));
    assert!(!le(0.0, -0.0));
    assert!(le(3.5, 3.5));
    assert!(le(f64::NEG_INFINITY, f64::MIN));
    assert!(le(f64::MAX, f64::INFINITY));
}

#[test]
fn sort_samples_sorts_ascending() {
    let mut v: Vec<u64> = [3.0f64, -1.0, 2.5, -7.0, 0.0, 2.5]
        .iter()
        .map(|x| x.to_bits())
        .collect();
    sort_samples(&mut v);
    let sorted: Vec<f64> = v.iter().map(|b| f64::from_bits(*b)).collect();
    assert_eq!(sorted, vec![-7.0, -1.0, 0.0, 2.5, 2.5, 3.0]);
    let mut none: Vec<u64> = Vec::new();
    sort_samples(&mut none);
    assert_eq!(none, Vec::<u64>::new());
}

#[test]
fn despike_input_needs_two_rows_and_two_frames() {
    let one_frame = Dataset::new(
        grid_of(vec![vec![1., 2.], vec![3., 4.]]),
        String::new(),
        String::new(),
    )
    .unwrap();
    assert_eq!(
        despike_input(&one_frame).err(),
        Some(Error::InsufficientData)
    );
    let one_row = Dataset::new(
        grid_of(vec![vec![1., 2., 3., 4.]]),
        String::new(),
        String::new(),
    )
    .unwrap();
    assert_eq!(despike_input(&one_row).err(), Some(Error::InsufficientData));
    let enough = Dataset::new(
        grid_of(vec![vec![1., 2., 3., 4.], vec![5., 6., 7., 8.]]),
        String::new(),
        String::new(),
    )
    .unwrap();
    assert_eq!(
        values_of(&despike_input(&enough).unwrap()),
        vec![vec![2., 4.], vec![6., 8.]]
    );
}

#[test]
fn replace_flagged_touches_flagged_samples_only() {
    let mut image = grid_of(vec![vec![1., 2.], vec![3., 4.]]);
    let repaired = grid_of(vec![vec![10., 20.], vec![30., 40.]]);
    let flagged = vec![vec![false, true], vec![true, false]];
    assert_eq!(replace_flagged(&mut image, &repaired, &flagged), Ok(()));
    assert_eq!(values_of(&image), vec![vec![1., 20.], vec![30., 4.]]);
    let short = vec![vec![false, true]];
    assert_eq!(
        replace_flagged(&mut image, &repaired, &short),
        Err(Error::ShapeMismatch)
    );
    let ragged = vec![vec![false, true], vec![true]];
    assert_eq!(
        replace_flagged(&mut image, &repaired, &ragged),
        Err(Error::ShapeMismatch)
    );
    assert_eq!(values_of(&image), vec![vec![1., 20.], vec![30., 4.]]);
}

#[test]
fn one_iteration_repairs_a_single_spike() {
    let mut rows = vec![vec![10.0; 8]; 8];
    rows[3][4] = 1000.0;
    let mut image = grid_of(rows);
    assert_eq!(despike_floats(&mut image, 10.0, 10.0, 1), Ok(()));
    let expected: Vec<Vec<u64>> = vec![vec![10.0f64.to_bits(); 8]; 8];
    assert_eq!(image.to_rows(), expected);
}

#[test]
fn four_iterations_repair_a_spike_at_the_edge() {
    let mut rows: Vec<Vec<f64>> = (0..9)
        .map(|i| (0..8).map(|j| 50.0 + ((i * 3 + j * 5) % 4) as f64).collect())
        .collect();
    let clean = rows.clone();
    rows[0][7] = 5000.0;
    let mut image = grid_of(rows);
    assert_eq!(despike_floats(&mut image, 10.0, 10.0, 4), Ok(()));
    let result = values_of(&image);
    let median3 = values_of(&median_filter(&grid_of(clean.clone()), 3).unwrap());
    for i in 0..9 {
        for j in 0..8 {
            if (i, j) == (0, 7) {
                assert!((result[i][j] - median3[i][j]).abs() <= 3.0);
            } else {
                assert_eq!(result[i][j].to_bits(), clean[i][j].to_bits());
            }
        }
    }
}

#[test]
fn one_iteration_leaves_a_smooth_image_alone() {
    let rows: Vec<Vec<f64>> = (0..8)
        .map(|i| (0..8).map(|j| 100.0 + (i + j) as f64).collect())
        .collect();
    let mut image = grid_of(rows.clone());
    assert_eq!(despike_floats(&mut image, 10.0, 10.0, 1), Ok(()));
    assert_eq!(image.to_rows(), grid_of(rows).to_rows());
}

#[test]
fn no_pass_changes_nothing() {
    let mut rows = vec![vec![10.0; 4]; 4];
    rows[1][1] = 1000.0;
    let mut image = grid_of(rows.clone());
    assert_eq!(despike_floats(&mut image, 10.0, 10.0, 0), Ok(()));
    assert_eq!(image.to_rows(), grid_of(rows).to_rows());
}

#[test]
fn despike_needs_two_rows_and_two_columns() {
    let mut thin = grid_of(vec![vec![1., 2., 3.]]);
    assert_eq!(
        despike_floats(&mut thin, 10.0, 10.0, 0),
        Err(Error::InsufficientData)
    );
    let mut tall = grid_of(vec![vec![1.], vec![2.]]);
    assert_eq!(
        despike_floats(&mut tall, 10.0, 10.0, 2),
        Err(Error::InsufficientData)
    );
    assert_eq!(values_of(&tall), vec![vec![1.], vec![2.]]);
}

#[test]
fn despike_pass_hands_out_the_mirrored_neighbours() {
    let mut image = grid_of(vec![vec![1., 2.], vec![3., 4.]]);
    // the edge value of a sample: its neighbours above, below, left and right as digits
    let edge = |c: u64, n: u64, s: u64, w: u64, e: u64| {
        let d = |v: u64| f64::from_bits(v);
        (d(c) * 10000. + d(n) * 1000. + d(s) * 100. + d(w) * 10. + d(e)).to_bits()
    };
    let signal = |l: u64, _m5: u64| l;
    let seen = std::cell::RefCell::new(Vec::new());
    let cosmic = |s: u64, _s5: u64, l: u64, m3: u64, _m37: u64| {
        assert_eq!(s, l);
        seen.borrow_mut().push((f64::from_bits(l), f64::from_bits(m3)));
        f64::from_bits(m3) == 3.0
    };
    assert_eq!(despike_pass(&mut image, &edge, &signal, &cosmic), Ok(()));
    assert_eq!(
        seen.into_inner(),
        vec![(11312., 2.), (22412., 2.), (31334., 3.), (42434., 3.)]
    );
    assert_eq!(values_of(&image), vec![vec![1., 2.], vec![3., 3.]]);
}

#[test]
fn edge_value_adds_up_the_positive_quadrants() {
    let ops = SpikeArithmetic {
        zero: 0.0f64.to_bits(),
        siglim: 10.0f64.to_bits(),
        flim: 2.0f64.to_bits(),
        quadrant: |c: u64, a: u64, b: u64| (2.0 * number(c) - number(a) - number(b)).to_bits(),
        add: |a: u64, b: u64| (number(a) + number(b)).to_bits(),
        signal: |l: u64, _m5: u64| l,
        minus: |a: u64, b: u64| (number(a) - number(b)).to_bits(),
        ratio: |a: u64, b: u64| (number(a) / number(b)).to_bits(),
    };
    let edge = |c: f64, n: f64, s: f64, w: f64, e: f64| {
        number(ops.edge_of(
            c.to_bits(),
            n.to_bits(),
            s.to_bits(),
            w.to_bits(),
            e.to_bits(),
        ))
    };
    // quadrants: (s, e) = 20 - 1 - 4, (s, w) = 20 - 1 - 3, (n, e) = 20 - 2 - 4, (n, w) = 20 - 2 - 3
    assert_eq!(edge(10., 2., 1., 3., 4.), 15. + 16. + 14. + 15.);
    // only the quadrants towards the small neighbours are positive
    assert_eq!(edge(10., 100., 1., 3., 100.), 16.);
    assert_eq!(edge(10., 10., 10., 10., 10.), 0.);
    assert_eq!(edge(1., 5., 5., 5., 5.), 0.);
    assert_eq!(edge(10., f64::NAN, 1., 3., 4.), 15. + 16.);
    let spike = |s: f64, s5: f64, l: f64, m3: f64, m37: f64| {
        ops.spike(
            s.to_bits(),
            s5.to_bits(),
            l.to_bits(),
            m3.to_bits(),
            m37.to_bits(),
        )
    };
    assert!(spike(12., 1., 30., 20., 10.));
    assert!(!spike(11., 1., 30., 20., 10.));
    assert!(!spike(12., 1., 20., 20., 10.));
    assert!(spike(12., 1., 20., 20., 20.));
    assert!(!spike(12., 1., 0., 20., 20.));
    assert!(!spike(f64::NAN, 1., 30., 20., 10.));
}

#[test]
fn passes_with_functions_of_ones_own() {
    let mut image = grid_of(vec![vec![1., 2.], vec![3., 4.]]);
    let edge = |c: u64, _n: u64, _s: u64, _w: u64, _e: u64| c;
    let signal = |l: u64, _m5: u64| l;
    let cosmic = |s: u64, _s5: u64, _l: u64, _m3: u64, _m37: u64| number(s) == 4.0;
    assert_eq!(despike(&mut image, 3, &edge, &signal, &cosmic), Ok(()));
    assert_eq!(values_of(&image), vec![vec![1., 2.], vec![3., 3.]]);
}
