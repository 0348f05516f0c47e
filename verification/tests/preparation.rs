use mips_2d_qt::hilbert::{Occupation, SystemSize};
use mips_2d_qt::numerics::Direction;
use mips_2d_qt::preparation::{direction_from_code, occupation_from_draws, random_initial_state};
use rand::rngs::StdRng;
use rand::{Rng, SeedableRng};

#[test]
fn draws_select_the_first_entries_of_the_shuffled_pool() {
    let size = SystemSize::new(2, 3);
    // pool 0..6; swap(0, 4) -> [4,1,2,3,0,5]; swap(1, 1); swap(2, 5) -> [4,1,5,3,0,2]
    let occ = occupation_from_draws(size, 3, &vec![4, 1, 5]);
    let occupied: Vec<(usize, usize)> = (0..2)
        .flat_map(|x| (0..3).map(move |y| (x, y)))
        .filter(|&(x, y)| occ[x][y] == Occupation::Occupied)
        .collect();
    // sites 4 -> (1,1), 1 -> (0,1), 5 -> (1,2)
    assert_eq!(occupied, vec![(0, 1), (1, 1), (1, 2)]);
    let none = occupation_from_draws(size, 0, &vec![]);
    assert!(none.iter().all(|row| row.iter().all(|&o| o == Occupation::Empty)));
}

#[test]
fn random_initial_state_follows_the_rng_stream() {
    let size = SystemSize::new(4, 5);
    let num_particles = 6;
    let mut rng = StdRng::seed_from_u64(12);
    let (lattice, spins) = random_initial_state(size, num_particles, &mut rng);

    // The same draws made directly.
    let mut reference = StdRng::seed_from_u64(12);
    let n = 20;
    let mut pool: Vec<usize> = (0..n).collect();
    for i in 0..num_particles {
        let swap_idx = reference.random_range(i..n);
        pool.swap(i, swap_idx);
    }
    pool.truncate(num_particles);
    let mut expected_occ = vec![vec![false; 5]; 4];
    for &idx in &pool {
        expected_occ[idx / 5][idx % 5] = true;
    }
    let mut expected_spins = Vec::new();
    for _ in 0..num_particles {
        let s = reference.random_range(0..=3);
        expected_spins.push(match s {
            0 => Direction::Left,
            1 => Direction::Right,
            2 => Direction::Up,
            3 => Direction::Down,
            _ => unreachable!(),
        });
    }
    for x in 0..4 {
        for y in 0..5 {
            assert_eq!(lattice.grid[x][y].is_some(), expected_occ[x][y]);
        }
    }
    assert_eq!(spins, expected_spins);
    assert_eq!(lattice.number_particles, num_particles);
    for p in 0..num_particles {
        assert!(lattice.position_of_particle(p).is_some());
    }
    // Both generators are at the same point of the stream.
    assert_eq!(rng.random::<u64>(), reference.random::<u64>());
}

#[test]
fn spin_codes_map_to_directions() {
    assert_eq!(direction_from_code(0), Direction::Left);
    assert_eq!(direction_from_code(1), Direction::Right);
    assert_eq!(direction_from_code(2), Direction::Up);
    assert_eq!(direction_from_code(3), Direction::Down);
}

#[test]
fn every_site_can_be_drawn_once() {
    // All sites drawn: the whole lattice is occupied.
    let size = SystemSize::new(2, 2);
    let occ = occupation_from_draws(size, 4, &vec![3, 2, 3, 3]);
    assert!(occ.iter().all(|row| row.iter().all(|&o| o == Occupation::Occupied)));
    let mut rng = StdRng::seed_from_u64(5);
    let (lattice, spins) = random_initial_state(size, 4, &mut rng);
    assert_eq!(spins.len(), 4);
    assert!(lattice.grid.iter().all(|row| row.iter().all(|c| c.is_some())));
    assert_eq!(lattice.hamiltonian_indices(), vec![15, 15, 15, 15]);
}
