//! The state shared by every request: the bus and the shutdown flag.
use vstd::prelude::*;

use crate::handler::HandlerView;
use crate::pubsub::SimpleBus;

verus! {

/// Built once at startup and handed to every request-scoped operation.
pub struct Context {
    pub bus: SimpleBus,
    pub terminated: bool,
}

impl Context {
    /// An empty bus, not shut down.
    pub fn init() -> (r: Context)
        ensures
            r.bus@ == Seq::<(Seq<char>, Seq<HandlerView>)>::empty(),
            r.bus.wf(),
            !r.terminated,
    {
        Context { bus: SimpleBus::new(), terminated: false }
    }

    /// Raises the shutdown flag; push-delivery loops end on their next round.
    pub fn shutdown(&mut self)
        ensures
            final(self).terminated,
            final(self).bus == old(self).bus,
    {
        self.terminated = true;
    }
}

} // verus!
