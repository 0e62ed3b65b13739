//! Root state of the graphical front end.
use vstd::prelude::*;

verus! {

/// Root application state: where the front end keeps its configuration.
#[derive(Debug, Clone)]
pub struct AppState {
    pub config_dir: String,
}

impl AppState {
    /// State for the given configuration directory.
    pub fn new(config_dir: &String) -> (r: Self)
        ensures
            r.config_dir@ == config_dir@,
    {
        AppState { config_dir: config_dir.clone() }
    }
}

} // verus!
