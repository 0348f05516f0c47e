use mips_2d_qt::hilbert::{Occupation, SystemSize};
use mips_2d_qt::numerics::{Direction, LatticeState, MATRIX_DIMENSION};
use mips_2d_qt::time_evolution::{decode_jump, open_channels, JumpChoice, CHANNEL_LABELS, NUM_JUMP_CHANNELS};

#[test]
fn channel_table_matches_perpendicular_directions() {
    for (channel, &(spin, move_dir)) in CHANNEL_LABELS[..MATRIX_DIMENSION].iter().enumerate() {
        assert_eq!(spin, channel, "forward channels are indexed by sigma");
        assert_eq!(move_dir, spin, "a forward jump moves along sigma");
    }

    for spin in Direction::ALL {
        let displacements: Vec<Direction> = CHANNEL_LABELS[MATRIX_DIMENSION..]
            .iter()
            .filter(|&&(s, _)| s == usize::from(spin))
            .map(|&(_, mu)| Direction::ALL[mu])
            .collect();
        assert_eq!(displacements, spin.perpendicular().to_vec(), "lateral displacements for sigma={:?}", spin);
    }
}

#[test]
fn no_channel_moves_backward() {
    assert_eq!(NUM_JUMP_CHANNELS, 12);
    for &(spin, mu) in CHANNEL_LABELS.iter() {
        assert_ne!(Direction::ALL[mu], Direction::ALL[spin].opposite());
    }
}

#[test]
fn decode_jump_splits_particle_and_channel() {
    assert_eq!(
        decode_jump(0),
        JumpChoice { particle: 0, spin: Direction::Left, displacement: Direction::Left }
    );
    assert_eq!(
        decode_jump(12 + 5),
        JumpChoice { particle: 1, spin: Direction::Left, displacement: Direction::Down }
    );
    assert_eq!(
        decode_jump(3 * 12 + 9),
        JumpChoice { particle: 3, spin: Direction::Up, displacement: Direction::Right }
    );
    for p in 0..4 {
        for c in 0..NUM_JUMP_CHANNELS {
            let j = decode_jump(p * NUM_JUMP_CHANNELS + c);
            assert_eq!(j.particle, p);
            assert_eq!((usize::from(j.spin), usize::from(j.displacement)), CHANNEL_LABELS[c]);
        }
    }
}

#[test]
fn an_occupied_neighbor_closes_the_three_channels_towards_it() {
    // Right neighbor occupied; all others empty.
    let open = open_channels([true, false, true, true]);
    let closed: Vec<usize> = (0..NUM_JUMP_CHANNELS).filter(|&c| !open[c]).collect();
    // The forward channel of R and the lateral channels of U and D towards +x.
    assert_eq!(closed, vec![1, 9, 11]);
    for c in closed {
        assert_eq!(Direction::ALL[CHANNEL_LABELS[c].1], Direction::Right);
    }
    assert_eq!(open_channels([true; 4]), [true; NUM_JUMP_CHANNELS]);
    assert_eq!(open_channels([false; 4]), [false; NUM_JUMP_CHANNELS]);
    // Only the left neighbor empty: the forward channel of L and the
    // lateral channels of U and D towards -x.
    let open = open_channels([true, false, false, false]);
    let open_list: Vec<usize> = (0..NUM_JUMP_CHANNELS).filter(|&c| open[c]).collect();
    assert_eq!(open_list, vec![0, 8, 10]);
}

#[test]
fn open_channels_only_point_at_empty_sites() {
    let mut occ = vec![vec![Occupation::Empty; 3]; 4];
    for &(x, y) in &[(0, 0), (1, 0), (0, 1), (2, 2), (3, 2), (3, 0)] {
        occ[x][y] = Occupation::Occupied;
    }
    let mut state = LatticeState::new(SystemSize::new(4, 3), &occ, 6);
    for round in 0..3 {
        let masks = state.jump_masks();
        let mut hops = Vec::new();
        for p in 0..6 {
            let (x, y) = state.position_of_particle(p).unwrap();
            let open = open_channels(masks[p]);
            for c in 0..NUM_JUMP_CHANNELS {
                let mu = Direction::ALL[CHANNEL_LABELS[c].1];
                let (nx, ny) = state.neighbor_coords(x, y, mu);
                assert_eq!(open[c], state.grid[nx][ny].is_none(), "round {} particle {} channel {}", round, p, c);
                if open[c] {
                    hops.push((x, y, mu));
                }
            }
        }
        // Take the first allowed hop and look again.
        let (x, y, mu) = hops[0];
        state.move_particle(x, y, mu);
    }
}
