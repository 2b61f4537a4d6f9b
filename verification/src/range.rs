//! Half-open ranges of TCP ports and their mathematical model.

use vstd::prelude::*;

verus! {

/// The mathematical model of a port range: the ports `p` with
/// `low <= p < high`.
pub struct Span {
    pub low: int,
    pub high: int,
}

impl Span {
    /// A span of real ports never runs backwards and stays within 16 bits.
    pub open spec fn valid(self) -> bool {
        0 <= self.low <= self.high <= 0xffff
    }

    /// How many ports the span holds.
    pub open spec fn len(self) -> nat {
        if self.low <= self.high {
            (self.high - self.low) as nat
        } else {
            0
        }
    }

    pub open spec fn contains(self, port: int) -> bool {
        self.low <= port < self.high
    }

    /// The ports of the span in increasing order.
    pub open spec fn ports(self) -> Seq<u16> {
        Seq::new(self.len(), |i: int| (self.low + i) as u16)
    }

    /// The ports of the span as a set.
    pub open spec fn port_set(self) -> Set<u16> {
        Set::new(|port: u16| self.contains(port as int))
    }
}

/// A half-open range of ports `[low, high)` with `low <= high`.
#[derive(Clone, Copy, Debug, PartialEq, Eq)]
pub struct PortRange {
    low: u16,
    high: u16,
}

impl View for PortRange {
    type V = Span;

    closed spec fn view(&self) -> Span {
        Span { low: self.low as int, high: self.high as int }
    }
}

impl PortRange {
    #[verifier::type_invariant]
    pub open spec fn wf(self) -> bool {
        self@.valid()
    }

    /// The range `[low, high)`, or `None` where `low > high`.
    pub fn new(low: u16, high: u16) -> (range: Option<PortRange>)
        ensures
            low <= high <==> range is Some,
            range matches Some(r) ==> r@ == (Span { low: low as int, high: high as int }),
    {
        if low <= high {
            Some(PortRange { low, high })
        } else {
            None
        }
    }

    /// The range `[low, high)` for bounds already known to be in order.
    pub(crate) fn between(low: u16, high: u16) -> (range: PortRange)
        requires
            low <= high,
        ensures
            range@ == (Span { low: low as int, high: high as int }),
    {
        PortRange { low, high }
    }

    /// The first port of the range.
    pub fn low(&self) -> (port: u16)
        ensures
            port == self@.low,
            self@.valid(),
    {
        proof {
            use_type_invariant(self);
        }
        self.low
    }

    /// The port just past the last one of the range.
    pub fn high(&self) -> (port: u16)
        ensures
            port == self@.high,
            self@.valid(),
    {
        proof {
            use_type_invariant(self);
        }
        self.high
    }

    /// The number of ports in the range.
    pub fn len(&self) -> (n: u16)
        ensures
            n == self@.len(),
    {
        proof {
            use_type_invariant(self);
        }
        self.high - self.low
    }

    pub fn is_empty(&self) -> (empty: bool)
        ensures
            empty <==> self@.len() == 0,
    {
        proof {
            use_type_invariant(self);
        }
        self.low == self.high
    }

    pub fn contains(&self, port: u16) -> (inside: bool)
        ensures
            inside == self@.contains(port as int),
    {
        self.low <= port && port < self.high
    }

    /// The ports of the range in increasing order.
    pub fn ports(&self) -> (list: Vec<u16>)
        ensures
            list@ == self@.ports(),
    {
        proof {
            use_type_invariant(self);
        }
        let mut list: Vec<u16> = Vec::new();
        let mut port: u16 = self.low;
        while port < self.high
            invariant
                self@.valid(),
                self.low <= port <= self.high,
                list@ == (Span { low: self.low as int, high: port as int }).ports(),
            decreases self.high - port,
        {
            list.push(port);
            port = port + 1;
            assert(list@ =~= (Span { low: self.low as int, high: port as int }).ports());
        }
        list
    }
}

} // verus!
