use mips_2d_qt::hilbert::{Occupation, SystemSize};
use mips_2d_qt::numerics::LatticeState;
use mips_2d_qt::observables::{get_observable_names, perform_measurements, MeasurementResult};

#[test]
fn measurements_of_a_small_lattice() {
    let size = SystemSize::new(2, 2);
    let mut occ = vec![vec![Occupation::Empty; 2]; 2];
    occ[0][1] = Occupation::Occupied;
    occ[1][1] = Occupation::Occupied;
    let state = LatticeState::new(size, &occ, 2);
    let m = perform_measurements(&state, size);
    assert!(m.occupation == occ);
    // flattened occupation: [0, 1, 0, 1]
    let expected: Vec<Vec<u8>> = vec![vec![0, 0, 0, 0], vec![0, 1, 0, 1], vec![0, 0, 0, 0], vec![0, 1, 0, 1]];
    assert_eq!(m.correlation, expected);
    for i in 0..4 {
        for j in 0..4 {
            assert_eq!(m.correlation[i][j], m.correlation[j][i]);
        }
    }
}

#[test]
fn measurement_over_fewer_sites_than_stored() {
    let size = SystemSize::new(2, 3);
    let mut occ = vec![vec![Occupation::Empty; 3]; 2];
    occ[0][0] = Occupation::Occupied;
    occ[1][2] = Occupation::Occupied;
    let state = LatticeState::new(size, &occ, 2);
    let m = perform_measurements(&state, SystemSize::new(1, 3));
    assert_eq!(m.correlation, vec![vec![1, 0, 0], vec![0, 0, 0], vec![0, 0, 0]]);
    assert_eq!(m.occupation.len(), 2);
}

#[test]
fn measurement_result_new_keeps_data() {
    let m = MeasurementResult::new(vec![vec![Occupation::Occupied]], vec![vec![1]]);
    assert!(m.occupation[0][0] == Occupation::Occupied);
    assert_eq!(m.correlation, vec![vec![1u8]]);
}

#[test]
fn observable_names() {
    assert_eq!(get_observable_names(), vec!["Occupation", "Correlation"]);
}
