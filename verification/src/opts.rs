use vstd::prelude::*;

verus! {

/// The command-line options: verbosity and where the configuration lives.
#[derive(Debug, Clone)]
pub struct Opts {
    pub verbose: u8,
    pub config: String,
}

impl Opts {
    /// Options as parsed at the process boundary.
    pub fn new(verbose: u8, config: String) -> (r: Self)
        ensures
            r.verbose == verbose,
            r.config == config,
    {
        Opts { verbose, config }
    }
}

} // verus!
