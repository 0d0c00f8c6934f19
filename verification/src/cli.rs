//! The run's configuration, as plain values. The command-line surface that
//! fills it in lives outside the library.

use vstd::prelude::*;

verus! {

/// What a run is asked to do: a source root and an output path, each
/// optional, and the display switches.
#[derive(Debug, Clone)]
pub struct Cli {
    pub source: Option<String>,
    pub out: Option<String>,
    pub no_banner: bool,
    pub no_summary: bool,
    pub quiet: bool,
    pub trace: bool,
}

} // verus!
