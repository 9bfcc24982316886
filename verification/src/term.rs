//! Terminal setup shared by the command-line front ends.

use vstd::prelude::*;

verus! {

/// Prepares the terminal for coloured output. ANSI escape handling is
/// on by default on this platform, so there is nothing to switch on.
pub fn init_colored() {
}

} // verus!
