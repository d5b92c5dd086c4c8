use vstd::prelude::*;
use crate::container::Container;

verus! {

/// The outcome of a successful build: the fully initialized container, ready
/// for the running phase.
pub struct BuiltServer {
    pub world: Container,
}

impl BuiltServer {
    pub fn new(world: Container) -> (s: BuiltServer)
        ensures
            s.world == world,
    {
        BuiltServer { world }
    }

    /// The running phase is outside the resource-resolution core; one tick
    /// consumes the server.
    pub fn run_tick(self) {
        let _ = self;
    }
}

} // verus!
