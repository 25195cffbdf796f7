//! What every reader of a subsystem offers.

use vstd::prelude::*;

verus! {

/// A reader of one subsystem of the host.
pub trait SysInfo: Sized {
    /// A reader that has read nothing yet.
    fn new() -> Self;

    /// Reads the subsystem anew.
    fn read(&mut self);

    /// Shows what was read.
    fn display(&self);
}

} // verus!
