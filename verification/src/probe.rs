//! Probing one port: connection attempts with a bounded number of tries.
//!
//! How a connection is attempted is left to the caller, who hands in a
//! function from an endpoint to "connected or not". What that function
//! promises of its answers is all that a verdict can be held to.

use crate::address::TargetAddress;
use crate::range::Span;
use vstd::prelude::*;

verus! {

/// A verdict agrees with the connection attempts where an open one rests
/// on an attempt that succeeded, and a closed one, after at least one
/// try, on an attempt that failed. With no tries every port is closed.
pub open spec fn verdict_agrees<F: Fn(TargetAddress) -> bool>(
    connect: &F,
    endpoint: TargetAddress,
    retries: u8,
    open: bool,
) -> bool {
    if open {
        retries > 0 && connect.ensures((endpoint,), true)
    } else {
        retries > 0 ==> connect.ensures((endpoint,), false)
    }
}

/// `connect` may be called on every port of `span` at the host of `base`.
pub open spec fn can_probe<F: Fn(TargetAddress) -> bool>(
    connect: &F,
    base: TargetAddress,
    span: Span,
) -> bool {
    forall|port: u16| #[trigger]
        span.contains(port as int) ==> connect.requires((base.at(port),))
}

/// How far the probe of one port has come.
#[derive(Clone, Copy, Debug, PartialEq, Eq)]
pub enum ProbeState {
    /// Another attempt is due; `left` attempts remain, this one included.
    Trying { left: u8 },
    /// An attempt succeeded: the port is open.
    Open,
    /// Every attempt failed, or none was allowed: the port is closed.
    Closed,
}

impl ProbeState {
    /// The state before the first attempt, with `retries` attempts allowed
    /// in all.
    pub open spec fn start(retries: u8) -> ProbeState {
        if retries == 0 {
            ProbeState::Closed
        } else {
            ProbeState::Trying { left: retries }
        }
    }

    /// The state after one more attempt. The first success settles the
    /// verdict; a failure uses up one attempt, whatever its cause. Once
    /// the verdict is settled nothing changes it.
    pub open spec fn answered(self, connected: bool) -> ProbeState {
        match self {
            ProbeState::Trying { left } => if connected {
                ProbeState::Open
            } else if left <= 1 {
                ProbeState::Closed
            } else {
                ProbeState::Trying { left: (left - 1) as u8 }
            },
            _ => self,
        }
    }

    /// The state after the attempts whose answers are `answers`, in their
    /// order.
    pub open spec fn after(retries: u8, answers: Seq<bool>) -> ProbeState
        decreases answers.len(),
    {
        if answers.len() == 0 {
            Self::start(retries)
        } else {
            Self::after(retries, answers.drop_last()).answered(answers.last())
        }
    }

    pub fn begin(retries: u8) -> (state: ProbeState)
        ensures
            state == Self::start(retries),
    {
        if retries == 0 {
            ProbeState::Closed
        } else {
            ProbeState::Trying { left: retries }
        }
    }

    /// Takes in the answer of the attempt that was due.
    pub fn step(self, connected: bool) -> (state: ProbeState)
        ensures
            state == self.answered(connected),
    {
        match self {
            ProbeState::Trying { left } => {
                if connected {
                    ProbeState::Open
                } else if left <= 1 {
                    ProbeState::Closed
                } else {
                    ProbeState::Trying { left: left - 1 }
                }
            },
            ProbeState::Open => ProbeState::Open,
            ProbeState::Closed => ProbeState::Closed,
        }
    }

    /// The verdict, once it is settled.
    pub fn verdict(self) -> (open: Option<bool>)
        ensures
            open == match self {
                ProbeState::Trying { .. } => None::<bool>,
                ProbeState::Open => Some(true),
                ProbeState::Closed => Some(false),
            },
    {
        match self {
            ProbeState::Trying { .. } => None,
            ProbeState::Open => Some(true),
            ProbeState::Closed => Some(false),
        }
    }
}

/// A probe finds a port open exactly where one of the first `retries`
/// attempts succeeds, and it makes no attempt after that one. It finds the
/// port closed exactly where `retries` attempts have failed. Before that
/// another attempt is due.
pub proof fn law_probe_verdict(retries: u8, answers: Seq<bool>)
    ensures
        match ProbeState::after(retries, answers) {
            ProbeState::Open => exists|i: int|
                0 <= i < answers.len() && i < retries && #[trigger] answers[i] && (forall|j: int|
                    0 <= j < i ==> !answers[j]),
            ProbeState::Closed => answers.len() >= retries && (forall|j: int|
                0 <= j < retries ==> !answers[j]),
            ProbeState::Trying { left } => answers.len() < retries && left == retries
                - answers.len() && (forall|j: int| 0 <= j < answers.len() ==> !answers[j]),
        },
    decreases answers.len(),
{
    if answers.len() > 0 {
        let front = answers.drop_last();
        law_probe_verdict(retries, front);
        let before = ProbeState::after(retries, front);
        match before {
            ProbeState::Open => {
                let i = choose|i: int|
                    0 <= i < front.len() && i < retries && #[trigger] front[i] && (forall|j: int|
                        0 <= j < i ==> !front[j]);
                assert(answers[i] == front[i]);
                assert forall|j: int| 0 <= j < i implies !answers[j] by {
                    assert(answers[j] == front[j]);
                }
            },
            ProbeState::Closed => {
                assert forall|j: int| 0 <= j < retries implies !answers[j] by {
                    assert(answers[j] == front[j]);
                }
            },
            ProbeState::Trying { left } => {
                assert forall|j: int| 0 <= j < front.len() implies !answers[j] by {
                    assert(answers[j] == front[j]);
                }
                if answers.last() {
                    assert(answers[answers.len() - 1]);
                }
            },
        }
    }
}

/// Tries to connect to `port` at the host of `address`, up to `retries`
/// times in all, and stops at the first attempt that succeeds. Every
/// failure counts alike, whatever its cause.
pub fn probe<F: Fn(TargetAddress) -> bool>(
    connect: &F,
    address: TargetAddress,
    port: u16,
    retries: u8,
) -> (open: bool)
    requires
        connect.requires((address.at(port),)),
    ensures
        verdict_agrees(connect, address.at(port), retries, open),
{
    let endpoint = address.with_port(port);
    let mut state = ProbeState::begin(retries);
    loop
        invariant
            endpoint == address.at(port),
            connect.requires((endpoint,)),
            state is Trying ==> retries > 0,
            state is Open ==> retries > 0 && connect.ensures((endpoint,), true),
            state is Closed && retries > 0 ==> connect.ensures((endpoint,), false),
        decreases
            match state {
                ProbeState::Trying { left } => left + 1,
                _ => 0,
            },
    {
        match state.verdict() {
            Some(open) => {
                return open;
            },
            None => {
                let connected: bool = connect(endpoint);
                state = state.step(connected);
            },
        }
    }
}

/// `found` is what a sweep over `span` may report: ports of the span in
/// increasing order, none twice, and a port of the span is among them
/// exactly where its verdict is "open".
pub open spec fn sweep_outcome<F: Fn(TargetAddress) -> bool>(
    connect: &F,
    base: TargetAddress,
    span: Span,
    retries: u8,
    found: Seq<u16>,
) -> bool {
    &&& forall|i: int, j: int| 0 <= i < j < found.len() ==> found[i] < found[j]
    &&& forall|i: int| 0 <= i < found.len() ==> span.contains(#[trigger] found[i] as int)
    &&& forall|port: u16| #[trigger]
        span.contains(port as int) ==> verdict_agrees(
            connect,
            base.at(port),
            retries,
            found.contains(port),
        )
}

/// A sweep over no ports finds none.
pub proof fn lemma_outcome_empty<F: Fn(TargetAddress) -> bool>(
    connect: &F,
    base: TargetAddress,
    at: int,
    retries: u8,
)
    ensures
        sweep_outcome(connect, base, Span { low: at, high: at }, retries, Seq::empty()),
{
}

/// A sweep over one port finds it where its verdict is "open".
pub proof fn lemma_outcome_single<F: Fn(TargetAddress) -> bool>(
    connect: &F,
    base: TargetAddress,
    port: u16,
    retries: u8,
    open: bool,
)
    requires
        verdict_agrees(connect, base.at(port), retries, open),
    ensures
        sweep_outcome(
            connect,
            base,
            Span { low: port as int, high: port + 1 },
            retries,
            if open {
                seq![port]
            } else {
                Seq::empty()
            },
        ),
{
    let found = if open {
        seq![port]
    } else {
        Seq::<u16>::empty()
    };
    if open {
        assert(found[0] == port);
    }
}

/// Sweeps over two spans that meet make a sweep over the span they form.
pub proof fn lemma_outcome_join<F: Fn(TargetAddress) -> bool>(
    connect: &F,
    base: TargetAddress,
    left: Span,
    right: Span,
    retries: u8,
    first: Seq<u16>,
    second: Seq<u16>,
)
    requires
        left.low <= left.high,
        left.high == right.low,
        right.low <= right.high,
        sweep_outcome(connect, base, left, retries, first),
        sweep_outcome(connect, base, right, retries, second),
    ensures
        sweep_outcome(
            connect,
            base,
            Span { low: left.low, high: right.high },
            retries,
            first + second,
        ),
{
    let whole = Span { low: left.low, high: right.high };
    let found = first + second;
    assert forall|i: int, j: int| 0 <= i < j < found.len() implies found[i] < found[j] by {
        if i < first.len() {
            assert(left.contains(first[i] as int));
        } else {
            assert(right.contains(second[i - first.len()] as int));
        }
        if j < first.len() {
            assert(left.contains(first[j] as int));
        } else {
            assert(right.contains(second[j - first.len()] as int));
        }
    }
    assert forall|i: int| 0 <= i < found.len() implies whole.contains(
        #[trigger] found[i] as int,
    ) by {
        if i < first.len() {
            assert(left.contains(first[i] as int));
        } else {
            assert(right.contains(second[i - first.len()] as int));
        }
    }
    assert forall|port: u16| #[trigger] whole.contains(port as int) implies verdict_agrees(
        connect,
        base.at(port),
        retries,
        found.contains(port),
    ) by {
        if left.contains(port as int) {
            if found.contains(port) && !first.contains(port) {
                let i = choose|i: int| 0 <= i < found.len() && found[i] == port;
                assert(right.contains(second[i - first.len()] as int));
            }
            if first.contains(port) {
                let i = choose|i: int| 0 <= i < first.len() && first[i] == port;
                assert(found[i] == port);
            }
            assert(found.contains(port) == first.contains(port));
        } else {
            assert(right.contains(port as int));
            if found.contains(port) && !second.contains(port) {
                let i = choose|i: int| 0 <= i < found.len() && found[i] == port;
                if i < first.len() {
                    assert(left.contains(first[i] as int));
                } else {
                    assert(second[i - first.len()] == port);
                }
            }
            if second.contains(port) {
                let i = choose|i: int| 0 <= i < second.len() && second[i] == port;
                assert(found[first.len() + i] == port);
            }
            assert(found.contains(port) == second.contains(port));
        }
    }
}

} // verus!
