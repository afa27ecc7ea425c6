//! What a run is asked to do.
use vstd::prelude::*;

verus! {

/// Where the positions of a run come from.
#[derive(Clone, Copy, Debug, PartialEq, Eq, Structural)]
pub enum Mode {
    /// From recorded games.
    Kifu,
    /// From snapshots of solved positions.
    Mate,
}

/// The options of a run.
pub struct Arg {
    /// Where the positions come from.
    pub md: Mode,
    /// The input directories, one group each.
    pub kifudir: Vec<String>,
    /// Whether progress is shown.
    pub progressbar: bool,
    /// The path of the log, in which `<DATETIME>` stands for the time at
    /// which the run starts.
    pub log: Option<String>,
    /// The depth `N`: positions `N` plies before the end of the game are
    /// taken, and positions at `N - 1` are written.
    pub mate: u32,
    /// The path of the solver's configuration.
    pub ru_config: Option<String>,
    /// Whether details are shown.
    pub verbose: bool,
}

} // verus!
