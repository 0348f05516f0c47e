use mips_2d_qt::hilbert::{Occupation, SystemSize};
use mips_2d_qt::numerics::{Direction, LatticeState, MATRIX_DIMENSION};

fn occupation(l_x: usize, l_y: usize, sites: &[(usize, usize)]) -> Vec<Vec<Occupation>> {
    let mut occ = vec![vec![Occupation::Empty; l_y]; l_x];
    for &(x, y) in sites {
        occ[x][y] = Occupation::Occupied;
    }
    occ
}

/// Neighbor-occupancy index recomputed from scratch from the grid.
fn expected_index(state: &LatticeState, x: usize, y: usize) -> usize {
    let mut v = 0;
    for d in Direction::ALL {
        let (nx, ny) = state.neighbor_coords(x, y, d);
        if state.grid[nx][ny].is_some() {
            v |= 1 << usize::from(d);
        }
    }
    v
}

fn assert_caches_consistent(state: &LatticeState) {
    for x in 0..state.system_size.l_x {
        for y in 0..state.system_size.l_y {
            if let Some(p) = state.grid[x][y] {
                assert_eq!(state.hamiltonian_index(p), expected_index(state, x, y), "particle {} at ({}, {})", p, x, y);
            }
        }
    }
}

#[test]
fn lateral_displacements_are_the_two_perpendicular_directions() {
    for spin in Direction::ALL {
        let [mu_plus, mu_minus] = spin.perpendicular();
        assert_ne!(mu_plus, spin, "a lateral hop never moves along sigma");
        assert_ne!(mu_minus, spin, "a lateral hop never moves along sigma");
        assert_ne!(mu_plus, spin.opposite(), "a lateral hop is never backward");
        assert_ne!(mu_minus, spin.opposite(), "a lateral hop is never backward");
        assert_eq!(mu_plus.opposite(), mu_minus, "the two laterals are opposite");
    }
}

#[test]
fn direction_indices_and_opposites() {
    assert_eq!(Direction::ALL.map(usize::from), [0, 1, 2, 3]);
    for (i, d) in Direction::ALL.iter().enumerate() {
        assert_eq!(d.index(), i);
        assert_eq!(Direction::from_index(i), *d);
        assert_eq!(d.opposite().opposite(), *d);
        assert_ne!(d.opposite(), *d);
    }
    assert_eq!(Direction::Left.opposite(), Direction::Right);
    assert_eq!(Direction::Up.opposite(), Direction::Down);
    assert_eq!(Direction::Left.perpendicular(), [Direction::Up, Direction::Down]);
    assert_eq!(Direction::Down.perpendicular(), [Direction::Left, Direction::Right]);
}

#[test]
fn occupation_numbers() {
    assert_eq!(usize::from(Occupation::Empty), 0);
    assert_eq!(usize::from(Occupation::Occupied), 1);
    assert_eq!(Occupation::Occupied.as_number(), 1);
}

#[test]
fn system_size_counts_sites() {
    let s = SystemSize::new(4, 5);
    assert_eq!(s.l_x, 4);
    assert_eq!(s.l_y, 5);
    assert_eq!(s.num_sites(), 20);
}

#[test]
fn neighbor_coords_wrap_periodically() {
    let size = SystemSize::new(4, 3);
    let state = LatticeState::new(size, &occupation(4, 3, &[]), 0);
    assert_eq!(state.neighbor_coords(0, 0, Direction::Left), (3, 0));
    assert_eq!(state.neighbor_coords(3, 0, Direction::Right), (0, 0));
    assert_eq!(state.neighbor_coords(1, 2, Direction::Up), (1, 0));
    assert_eq!(state.neighbor_coords(1, 0, Direction::Down), (1, 2));
    assert_eq!(state.neighbor_coords(2, 1, Direction::Left), (1, 1));
    assert_eq!(state.neighbor_coords(2, 1, Direction::Up), (2, 2));
    assert_eq!(state.num_sites(), 12);
    // Stepping back in the opposite direction returns to the start.
    for x in 0..4 {
        for y in 0..3 {
            for d in Direction::ALL {
                let (nx, ny) = state.neighbor_coords(x, y, d);
                assert_eq!(state.neighbor_coords(nx, ny, d.opposite()), (x, y));
            }
        }
    }
}

#[test]
fn new_numbers_particles_in_row_major_order() {
    let size = SystemSize::new(3, 3);
    let occ = occupation(3, 3, &[(2, 0), (0, 2), (1, 1), (0, 0)]);
    let state = LatticeState::new(size, &occ, 4);
    assert_eq!(state.grid[0][0], Some(0));
    assert_eq!(state.grid[0][2], Some(1));
    assert_eq!(state.grid[1][1], Some(2));
    assert_eq!(state.grid[2][0], Some(3));
    assert_eq!(state.grid[1][0], None);
    assert_eq!(state.number_particles, 4);
    assert_eq!(state.neighbor_occupancy_index.len(), 4);
    assert_caches_consistent(&state);
    // Particle 0 at (0, 0): left (2,0) occupied, right (1,0) empty,
    // up (0,1) empty, down (0,2) occupied.
    assert_eq!(state.hamiltonian_index(0), 0b1001);
    assert_eq!(state.jump_mask(0), [false, true, true, false]);
    assert_eq!(state.position_of_particle(2), Some((1, 1)));
    assert_eq!(state.position_of_particle(7), None);
}

#[test]
fn unused_particle_indices_keep_a_zero_index() {
    let size = SystemSize::new(2, 2);
    let state = LatticeState::new(size, &occupation(2, 2, &[(1, 1), (0, 1)]), 3);
    // (0,1) and (1,1) are each other's left and right neighbor.
    assert_eq!(state.hamiltonian_indices(), vec![0b0011, 0b0011, 0]);
    assert_eq!(state.jump_masks(), vec![[false, false, true, true], [false, false, true, true], [true; 4]]);
    assert_eq!(state.position_of_particle(2), None);
}

#[test]
fn hamiltonian_index_and_jump_mask_agree() {
    let size = SystemSize::new(4, 4);
    let occ = occupation(4, 4, &[(0, 0), (1, 0), (0, 1), (3, 3), (2, 2)]);
    let state = LatticeState::new(size, &occ, 5);
    let indices = state.hamiltonian_indices();
    let masks = state.jump_masks();
    assert_eq!(indices.len(), 5);
    assert_eq!(masks.len(), 5);
    for p in 0..5 {
        for d in 0..MATRIX_DIMENSION {
            assert_eq!(masks[p][d], (indices[p] >> d) & 1 == 0);
        }
        assert!(indices[p] < 16);
    }
}

#[test]
fn move_particle_updates_grid_and_caches() {
    let size = SystemSize::new(5, 5);
    let occ = occupation(5, 5, &[(1, 1), (3, 2), (2, 1), (1, 2)]);
    let mut state = LatticeState::new(size, &occ, 4);
    let p = state.grid[1][1].unwrap();
    // (1,1) -> left (0,1)
    state.move_particle(1, 1, Direction::Left);
    assert_eq!(state.grid[1][1], None);
    assert_eq!(state.grid[0][1], Some(p));
    assert_eq!(state.position_of_particle(p), Some((0, 1)));
    assert_caches_consistent(&state);
    // Wrap around: (0,1) -> left (4,1)
    state.move_particle(0, 1, Direction::Left);
    assert_eq!(state.grid[4][1], Some(p));
    assert_caches_consistent(&state);
    // A sequence of hops keeps the caches exact and the particles in place.
    let hops = [
        (Direction::Up, 3, 2),
        (Direction::Right, 3, 3),
        (Direction::Down, 2, 1),
        (Direction::Left, 1, 2),
    ];
    for (d, x, y) in hops {
        let q = state.grid[x][y].unwrap();
        let (nx, ny) = state.neighbor_coords(x, y, d);
        assert!(state.grid[nx][ny].is_none());
        state.move_particle(x, y, d);
        assert_eq!(state.grid[nx][ny], Some(q));
        assert_caches_consistent(&state);
    }
    let count: usize = state.grid.iter().map(|row| row.iter().filter(|c| c.is_some()).count()).sum();
    assert_eq!(count, 4, "particle count not conserved");
    for q in 0..4 {
        assert!(state.position_of_particle(q).is_some());
    }
}

#[test]
fn move_particle_on_thin_lattices() {
    // l_x = 2: left and right neighbors coincide.
    let size = SystemSize::new(2, 3);
    let mut state = LatticeState::new(size, &occupation(2, 3, &[(0, 0), (0, 1)]), 2);
    assert_caches_consistent(&state);
    state.move_particle(0, 0, Direction::Right);
    assert_eq!(state.grid[1][0], Some(0));
    assert_caches_consistent(&state);
    // l_y = 1: a site is its own up and down neighbor.
    let size = SystemSize::new(3, 1);
    let mut state = LatticeState::new(size, &occupation(3, 1, &[(0, 0)]), 1);
    assert_eq!(state.hamiltonian_index(0), 0b1100);
    state.move_particle(0, 0, Direction::Right);
    assert_eq!(state.grid[1][0], Some(0));
    assert_eq!(state.hamiltonian_index(0), 0b1100);
    assert_caches_consistent(&state);
}

#[test]
fn occupation_grid_marks_occupied_sites() {
    let size = SystemSize::new(2, 3);
    let occ = occupation(2, 3, &[(0, 2), (1, 0)]);
    let state = LatticeState::new(size, &occ, 2);
    let grid = state.occupation_grid();
    assert_eq!(grid.len(), 2);
    for x in 0..2 {
        assert_eq!(grid[x].len(), 3);
        for y in 0..3 {
            assert_eq!(grid[x][y] == Occupation::Occupied, occ[x][y] == Occupation::Occupied);
        }
    }
}

fn picture(state: &LatticeState) -> String {
    state.render().into_iter().collect()
}

#[test]
fn render_draws_rows_from_the_top() {
    let state = LatticeState::new(SystemSize::new(3, 2), &occupation(3, 2, &[(0, 0), (2, 1)]), 2);
    let expected = "LatticeState: Lx=3, Ly=2\n\
                    Grid ('.' = empty, number = particle index):\n\
                    \x20 y=  1 |   .   .   1\n\
                    \x20 y=  0 |   0   .   .\n\
                    \x20        +------------\n\
                    \x20            0   1   2";
    assert_eq!(picture(&state), expected);
}

#[test]
fn render_right_aligns_numbers_of_any_width() {
    // 1101 particles on a 1200 x 1 lattice: indices and labels up to four
    // digits, which overflow the three-character field.
    let l_x = 1200;
    let sites: Vec<(usize, usize)> = (0..l_x).filter(|x| x % 12 != 5).map(|x| (x, 0)).collect();
    let state = LatticeState::new(SystemSize::new(l_x, 1), &occupation(l_x, 1, &sites), sites.len());
    let mut expected = String::new();
    expected.push_str(&format!("LatticeState: Lx={}, Ly={}\n", l_x, 1));
    expected.push_str("Grid ('.' = empty, number = particle index):\n");
    expected.push_str(&format!("  y={:>3} |", 0));
    for x in 0..l_x {
        match state.grid[x][0] {
            Some(p) => expected.push_str(&format!(" {:>3}", p)),
            None => expected.push_str("   ."),
        }
    }
    expected.push('\n');
    expected.push_str("         +");
    for _ in 0..l_x {
        expected.push_str("----");
    }
    expected.push('\n');
    expected.push_str("          ");
    for x in 0..l_x {
        expected.push_str(&format!(" {:>3}", x));
    }
    assert_eq!(picture(&state), expected);
    assert!(picture(&state).contains(" 1099"));
}
