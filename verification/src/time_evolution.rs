use vstd::prelude::*;

use crate::numerics::spatial::bit;
use crate::numerics::{Direction, LatticeState, MATRIX_DIMENSION};

verus! {

/// Number of jump channels per particle: one forward channel per internal
/// direction plus two lateral ones (the two perpendicular displacements)
/// per internal direction.
pub const NUM_JUMP_CHANNELS: usize = 3 * MATRIX_DIMENSION;

/// The `(internal direction sigma, displacement mu)` label of every jump
/// channel, in channel-index order, as direction indices. Channels
/// `0..MATRIX_DIMENSION` are forward (`mu == sigma`); the rest are lateral,
/// grouped by `sigma`, each with its two perpendicular displacements.
pub const CHANNEL_LABELS: [(usize, usize); NUM_JUMP_CHANNELS] = [
    (0, 0),
    (1, 1),
    (2, 2),
    (3, 3),
    (0, 2),
    (0, 3),
    (1, 2),
    (1, 3),
    (2, 0),
    (2, 1),
    (3, 0),
    (3, 1),
];

/// Label of jump channel `c`: internal direction and displacement.
pub open spec fn channel_label(c: int) -> (Direction, Direction) {
    if c < 4 {
        (Direction::from_idx(c), Direction::from_idx(c))
    } else {
        let sigma = Direction::from_idx((c - 4) / 2);
        (sigma, if (c - 4) % 2 == 0 {
            sigma.perp().0
        } else {
            sigma.perp().1
        })
    }
}

/// The table agrees with `channel_label`.
pub proof fn lemma_channel_table(c: int)
    requires
        0 <= c < NUM_JUMP_CHANNELS,
    ensures
        CHANNEL_LABELS[c].0 == channel_label(c).0.idx(),
        CHANNEL_LABELS[c].1 == channel_label(c).1.idx(),
{
}

/// Forward channels move a particle along its spin, lateral channels move it
/// sideways, and no channel moves a particle against its spin.
pub proof fn lemma_channel_directions(c: int)
    requires
        0 <= c < NUM_JUMP_CHANNELS,
    ensures
        c < MATRIX_DIMENSION ==> channel_label(c).0.idx() == c && channel_label(c).1 == channel_label(c).0,
        c >= MATRIX_DIMENSION ==> channel_label(c).1 != channel_label(c).0,
        channel_label(c).1 != channel_label(c).0.opp(),
{
    assert(c == 0 || c == 1 || c == 2 || c == 3 || c == 4 || c == 5 || c == 6 || c == 7 || c == 8 || c == 9 || c == 10
        || c == 11);
}

/// Each internal direction has exactly two lateral channels, whose
/// displacements are its two perpendicular directions, in order.
pub proof fn lemma_lateral_channels(sigma: Direction)
    ensures
        channel_label(4 + 2 * sigma.idx()) == (sigma, sigma.perp().0),
        channel_label(5 + 2 * sigma.idx()) == (sigma, sigma.perp().1),
        forall|c: int|
            MATRIX_DIMENSION <= c < NUM_JUMP_CHANNELS && #[trigger] channel_label(c).0 == sigma ==> c == 4 + 2
                * sigma.idx() || c == 5 + 2 * sigma.idx(),
{
    assert forall|c: int|
        MATRIX_DIMENSION <= c < NUM_JUMP_CHANNELS && #[trigger] channel_label(c).0 == sigma implies c == 4 + 2
            * sigma.idx() || c == 5 + 2 * sigma.idx() by {
        assert(c == 4 || c == 5 || c == 6 || c == 7 || c == 8 || c == 9 || c == 10 || c == 11);
    }
}

/// A flat jump index `particle * NUM_JUMP_CHANNELS + channel` decodes to
/// that particle and channel.
pub proof fn lemma_jump_index_roundtrip(particle: int, channel: int)
    requires
        0 <= particle,
        0 <= channel < NUM_JUMP_CHANNELS,
    ensures
        (particle * NUM_JUMP_CHANNELS + channel) / NUM_JUMP_CHANNELS as int == particle,
        (particle * NUM_JUMP_CHANNELS + channel) % NUM_JUMP_CHANNELS as int == channel,
{
    vstd::arithmetic::div_mod::lemma_fundamental_div_mod_converse(
        particle * NUM_JUMP_CHANNELS + channel,
        NUM_JUMP_CHANNELS as int,
        particle,
        channel,
    );
}

/// Index of the lateral channel of internal direction `sigma` that moves the
/// particle towards `mu` (for `mu` perpendicular to `sigma`).
pub open spec fn lateral_channel_towards(sigma: Direction, mu: Direction) -> int {
    if mu == sigma.perp().0 {
        4 + 2 * sigma.idx()
    } else {
        5 + 2 * sigma.idx()
    }
}

/// A lab direction `mu` is the displacement of exactly three channels: the
/// forward channel of `mu` and the lateral channels of the two directions
/// perpendicular to `mu`.
pub proof fn lemma_channels_by_displacement(mu: Direction)
    ensures
        channel_label(mu.idx() as int) == (mu, mu),
        channel_label(lateral_channel_towards(mu.perp().0, mu)) == (mu.perp().0, mu),
        channel_label(lateral_channel_towards(mu.perp().1, mu)) == (mu.perp().1, mu),
        forall|c: int|
            0 <= c < NUM_JUMP_CHANNELS && #[trigger] channel_label(c).1 == mu ==> c == mu.idx() || c
                == lateral_channel_towards(mu.perp().0, mu) || c == lateral_channel_towards(mu.perp().1, mu),
{
    assert forall|c: int|
        0 <= c < NUM_JUMP_CHANNELS && #[trigger] channel_label(c).1 == mu implies c == mu.idx() || c
            == lateral_channel_towards(mu.perp().0, mu) || c == lateral_channel_towards(mu.perp().1, mu) by {
        assert(c == 0 || c == 1 || c == 2 || c == 3 || c == 4 || c == 5 || c == 6 || c == 7 || c == 8 || c == 9 || c == 10
            || c == 11);
    }
}

/// Which channels of a particle can fire, given its jump mask (`true` where
/// the neighbor in that direction is empty): a channel is open exactly when
/// the neighbor in its displacement direction is empty.
pub fn open_channels(mask: [bool; 4]) -> (r: [bool; NUM_JUMP_CHANNELS])
    ensures
        forall|c: int| 0 <= c < NUM_JUMP_CHANNELS ==> r[c] == mask[channel_label(c).1.idx() as int],
{
    let mut r = [false; NUM_JUMP_CHANNELS];
    for c in 0..NUM_JUMP_CHANNELS
        invariant
            forall|j: int| 0 <= j < c ==> r[j] == mask[channel_label(j).1.idx() as int],
    {
        let (_, move_dir) = CHANNEL_LABELS[c];
        proof {
            lemma_channel_table(c as int);
        }
        r[c] = mask[move_dir];
    }
    r
}

/// Hard-core hops: a channel that the cached jump mask of a particle reports
/// as open moves it onto an empty site, so the hop it selects is one that
/// `LatticeState::move_particle` accepts.
pub proof fn lemma_open_channel_targets_empty_site(lattice: LatticeState, x: int, y: int, c: int)
    requires
        lattice.wf(),
        lattice.in_range(x, y),
        lattice.occupied(x, y),
        0 <= c < NUM_JUMP_CHANNELS,
        !bit(lattice.neighbor_occupancy_index@[lattice.cell(x, y)->0 as int], channel_label(c).1.idx()),
    ensures
        !lattice.neighbor_occupied(x, y, channel_label(c).1),
{
    assert(lattice.cache_ok_at(x, y));
    assert(lattice.bit_ok(x, y, channel_label(c).1));
}

/// A sampled jump: which particle jumps, onto which internal direction its
/// spin collapses, and in which direction it hops.
#[derive(Clone, Copy, Debug, PartialEq, Eq, Structural)]
pub struct JumpChoice {
    pub particle: usize,
    pub spin: Direction,
    pub displacement: Direction,
}

/// Decode a flat jump index (`particle * NUM_JUMP_CHANNELS + channel`).
pub fn decode_jump(jump_index: usize) -> (r: JumpChoice)
    ensures
        r.particle == jump_index / NUM_JUMP_CHANNELS,
        (r.spin, r.displacement) == channel_label(jump_index as int % NUM_JUMP_CHANNELS as int),
{
    let jump_particle_index = jump_index / NUM_JUMP_CHANNELS;
    let jump_channel_index = jump_index % NUM_JUMP_CHANNELS;
    let (spin_index, move_index) = CHANNEL_LABELS[jump_channel_index];
    proof {
        lemma_channel_table(jump_channel_index as int);
    }
    let spin = Direction::ALL[spin_index];
    let displacement = Direction::ALL[move_index];
    JumpChoice { particle: jump_particle_index, spin, displacement }
}

} // verus!
