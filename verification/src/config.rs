use vstd::prelude::*;

verus! {

/// Command line arguments of the simulation: where the configuration is
/// read from, where results go, and which optional outputs are written.
#[derive(Debug, Clone)]
pub struct CommandLineArgs {
    /// Path to configuration toml file
    pub config_path: String,
    /// Path to h5 output file
    pub output_path: String,
    /// Print verbose information for each trajectory
    pub verbose: bool,
    /// Include entire end state per trajectory in output file
    pub save_end_states: bool,
    /// Include spatial end state per trajectory in output file
    pub save_end_spatial: bool,
    /// Include all times of quantum jumps per trajectory in output file
    pub save_jump_times: bool,
}

} // verus!
