# mips_2d_qt

Quantum-trajectory simulation of hard-core bosons with a four-level
direction spin on a periodic two-dimensional lattice. The lattice
bookkeeping, the measurements and the rules around the simulation are a
library verified with Verus; the floating-point propagation, the input and
the output form a small program around it.

## Layout

- `src/` — the verified library.
  - `hilbert.rs`: lattice extents and site occupations.
  - `numerics/spatial.rs`: directions, the periodic lattice, and
    `LatticeState` with its per-particle neighbor-occupancy caches. Its
    well-formedness (`wf`) says that every cached 4-bit index records which
    neighbors are occupied; construction establishes it and every hop keeps
    it, together with the set of particles.
  - `numerics/picture.rs`: the text picture of a lattice.
  - `observables.rs`: occupation and two-point correlation measurements.
  - `time_evolution.rs`: the twelve jump channels of a particle (forward
    and lateral), which of them a neighbor mask leaves open, and the
    decoding of a sampled jump.
  - `preparation.rs`: random initial states drawn from a seeded `StdRng`.
  - `saving.rs`: names of the output groups, the stored form of a spatial
    configuration, and the retry policy for the output file's lock.
  - `text.rs`: decimal numbers and padding for the text outputs.
- `tests/` — tests of the library on concrete values.
- `app/` — the command line program: configuration, complex matrices and
  spin wavefunctions, the Monte Carlo wavefunction loop, and HDF5 output.
