use vstd::prelude::*;
use crate::commands::Command;

verus! {

/// The tool's command line.
pub struct Args {
    pub command: Command,
}

} // verus!
