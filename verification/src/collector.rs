//! The collector into which the workers of one pool put the open ports
//! they find.

use vstd::prelude::*;

verus! {

/// An append-only list of discovered ports, in the order of arrival.
#[derive(Debug)]
pub struct OpenPortCollector {
    ports: Vec<u16>,
}

impl View for OpenPortCollector {
    type V = Seq<u16>;

    closed spec fn view(&self) -> Seq<u16> {
        self.ports@
    }
}

impl OpenPortCollector {
    /// A collector that holds nothing yet.
    pub fn new() -> (collector: OpenPortCollector)
        ensures
            collector@ == Seq::<u16>::empty(),
    {
        OpenPortCollector { ports: Vec::new() }
    }

    /// The number of ports collected so far.
    pub fn len(&self) -> (n: usize)
        ensures
            n == self@.len(),
    {
        self.ports.len()
    }

    /// Adds one discovered port behind those already there.
    pub fn append(&mut self, port: u16)
        ensures
            final(self)@ == old(self)@.push(port),
    {
        self.ports.push(port);
    }

    /// Adds all that another collector holds, in its order, behind what is
    /// already there.
    pub fn absorb(&mut self, other: OpenPortCollector)
        ensures
            final(self)@ == old(self)@ + other@,
    {
        let mut other = other;
        self.ports.append(&mut other.ports);
    }

    /// Hands out what was collected and ends the collector's life.
    pub fn drain(self) -> (ports: Vec<u16>)
        ensures
            ports@ == self@,
    {
        self.ports
    }
}

} // verus!
