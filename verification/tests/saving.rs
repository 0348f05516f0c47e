use mips_2d_qt::numerics::Direction;
use mips_2d_qt::saving::{
    after_failed_lock, encode_spatial_configuration, group_name, spatial_name, spin_name, LockRetry, MAX_RETRIES,
};

#[test]
fn lock_retries_back_off_exponentially_then_give_up() {
    let mut retry_count = 0;
    let mut waits = Vec::new();
    loop {
        match after_failed_lock(retry_count) {
            LockRetry::Wait { retry_count: n, backoff_ms } => {
                assert_eq!(n, retry_count + 1);
                waits.push(backoff_ms);
                retry_count = n;
            }
            LockRetry::GiveUp => break,
        }
    }
    assert_eq!(waits, vec![100, 200, 400, 800, 1600, 3200, 6400, 10000, 10000]);
    assert_eq!(retry_count + 1, MAX_RETRIES);
    assert_eq!(after_failed_lock(9), LockRetry::GiveUp);
    assert_eq!(after_failed_lock(u32::MAX), LockRetry::GiveUp);
}

#[test]
fn empty_sites_are_stored_as_usize_max() {
    let grid = vec![vec![Some(0), None], vec![None, Some(1)]];
    assert_eq!(encode_spatial_configuration(&grid), vec![vec![0, usize::MAX], vec![usize::MAX, 1]]);
}

#[test]
fn group_names_encode_grid_and_spins() {
    let grid = vec![vec![Some(0), None, Some(12)], vec![None, None, Some(3)]];
    let spins = vec![Direction::Left, Direction::Right, Direction::Down];
    let spatial: String = spatial_name(&grid).into_iter().collect();
    let spin: String = spin_name(&spins).into_iter().collect();
    let group: String = group_name(&grid, &spins).into_iter().collect();
    assert_eq!(spatial, "0_E_12_|E_E_3_");
    assert_eq!(spin, "L_R_D_");
    assert_eq!(group, "spatial:(0_E_12_|E_E_3_)_spin:(L_R_D_)");
    let empty: String = group_name(&vec![], &vec![]).into_iter().collect();
    assert_eq!(empty, "spatial:()_spin:()");
    let big: String = spatial_name(&vec![vec![Some(1907)]]).into_iter().collect();
    assert_eq!(big, "1907_");
}

#[test]
fn distinct_initial_states_get_distinct_group_names() {
    let name = |grid: Vec<Vec<Option<usize>>>, spins: Vec<Direction>| -> String {
        group_name(&grid, &spins).into_iter().collect()
    };
    let states = vec![
        (vec![vec![Some(1), Some(0)]], vec![Direction::Up, Direction::Up]),
        (vec![vec![Some(10)], vec![None]], vec![Direction::Up]),
        (vec![vec![Some(1), Some(0)]], vec![Direction::Up, Direction::Down]),
        (vec![vec![Some(1)], vec![Some(0)]], vec![Direction::Up, Direction::Up]),
        (vec![vec![Some(1), None, Some(0)]], vec![Direction::Up, Direction::Up]),
        (vec![vec![None], vec![Some(10)]], vec![Direction::Up]),
    ];
    for (i, (g1, s1)) in states.iter().enumerate() {
        for (j, (g2, s2)) in states.iter().enumerate() {
            assert_eq!(name(g1.clone(), s1.clone()) == name(g2.clone(), s2.clone()), i == j);
        }
    }
}
