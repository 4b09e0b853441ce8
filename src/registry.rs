//! The registry of net and server kinds.
use crate::name_map::NameMap;
use vstd::prelude::*;

verus! {

/// Maps each net kind's name to its factory and each server kind's name to
/// its factory. Registering a name again replaces the earlier factory.
pub struct Registry<N, S> {
    pub net: NameMap<N>,
    pub server: NameMap<S>,
}

impl<N, S> Registry<N, S> {
    pub open spec fn wf(&self) -> bool {
        self.net.wf() && self.server.wf()
    }

    pub fn new() -> (r: Self)
        ensures
            r.wf(),
            r.net.view() == Map::<Seq<char>, N>::empty(),
            r.server.view() == Map::<Seq<char>, S>::empty(),
    {
        Registry { net: NameMap::new(), server: NameMap::new() }
    }

    /// Registers a net kind under `name`; the last registration wins.
    pub fn add_net(&mut self, name: String, factory: N)
        requires
            old(self).wf(),
        ensures
            final(self).wf(),
            final(self).net.view() == old(self).net.view().insert(name@, factory),
            final(self).server == old(self).server,
    {
        self.net.insert(name, factory);
    }

    /// Registers a server kind under `name`; the last registration wins.
    pub fn add_server(&mut self, name: String, factory: S)
        requires
            old(self).wf(),
        ensures
            final(self).wf(),
            final(self).server.view() == old(self).server.view().insert(name@, factory),
            final(self).net == old(self).net,
    {
        self.server.insert(name, factory);
    }
}

} // verus!
