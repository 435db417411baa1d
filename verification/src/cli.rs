//! Command-line options the front end hands to the library's callers.

use vstd::prelude::*;

verus! {

/// Options resolved by the command-line front end. `yes` answers the
/// "proceed with deletion?" question without prompting.
pub struct Cli {
    /// Auto respond "yes" to delete node_modules.
    pub yes: bool,
}

impl Cli {
    /// Options with every flag off.
    pub fn new() -> (r: Cli)
        ensures
            r.yes == false,
    {
        Cli { yes: false }
    }
}

} // verus!
