//! The digital-output capability that physical drive lines supply, and a
//! purely in-memory pin that provides it.

use vstd::prelude::*;

verus! {

/// Failure to drive a physical line. The multiplexer does not interpret it;
/// it only reports that some drive operation did not succeed.
#[derive(Clone, Copy, PartialEq, Eq, Structural, Debug)]
pub struct DriverError;

/// A line that can be driven to its active or inactive level.
///
/// Implementations supply the electrical side; the multiplexer relies only on
/// what is promised here. A drive operation may fail, and after a failure
/// nothing is known about the line's level, so the contracts speak only of
/// the successful case.
pub trait DigitalOutput {
    /// Whether the line is currently driven to its active level.
    spec fn asserted(&self) -> bool;

    /// Drive the line to its active level.
    fn set_high(&mut self) -> (r: Result<(), DriverError>)
        ensures
            r is Ok ==> final(self).asserted(),
    ;

    /// Drive the line to its inactive level.
    fn set_low(&mut self) -> (r: Result<(), DriverError>)
        ensures
            r is Ok ==> !final(self).asserted(),
    ;
}

/// A single boolean logical pin: the unit the caller reads and writes to
/// express desired output. Purely in-memory, so driving it cannot fail.
#[derive(Clone, Copy, PartialEq, Eq, Structural, Debug)]
pub struct VirtualPinOutput {
    state: bool,
}

impl VirtualPinOutput {
    /// A fresh pin in the unasserted state.
    pub fn new() -> (r: Self)
        ensures
            !r.asserted(),
    {
        VirtualPinOutput { state: false }
    }

    /// Read the pin's current state.
    pub fn is_asserted(&self) -> (r: bool)
        ensures
            r == self.asserted(),
    {
        self.state
    }
}

impl DigitalOutput for VirtualPinOutput {
    closed spec fn asserted(&self) -> bool {
        self.state
    }

    fn set_high(&mut self) -> (r: Result<(), DriverError>)
        ensures
            r is Ok,
            final(self).asserted(),
    {
        self.state = true;
        Ok(())
    }

    fn set_low(&mut self) -> (r: Result<(), DriverError>)
        ensures
            r is Ok,
            !final(self).asserted(),
    {
        self.state = false;
        Ok(())
    }
}

} // verus!
