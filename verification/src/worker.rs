//! The scanner worker: one contiguous slice of ports, probed in order.

use crate::address::TargetAddress;
use crate::collector::OpenPortCollector;
use crate::probe::{
    can_probe, lemma_outcome_empty, lemma_outcome_join, lemma_outcome_single, probe,
    sweep_outcome,
};
use crate::range::{PortRange, Span};
use vstd::prelude::*;

verus! {

/// The work of one scanner worker: the host to probe and the slice of
/// ports that this worker alone answers for.
#[derive(Clone, Copy, Debug, PartialEq, Eq)]
pub struct ScanTask {
    pub base: TargetAddress,
    pub range: PortRange,
}

/// Probes every port of the task, from the lowest up, and appends each
/// one found open to the collector.
pub fn scan_task<F: Fn(TargetAddress) -> bool>(
    task: &ScanTask,
    retries: u8,
    connect: &F,
    collector: &mut OpenPortCollector,
)
    requires
        can_probe(connect, task.base, task.range@),
    ensures
        old(collector)@.is_prefix_of(final(collector)@),
        sweep_outcome(
            connect,
            task.base,
            task.range@,
            retries,
            final(collector)@.skip(old(collector)@.len() as int),
        ),
{
    let low: u16 = task.range.low();
    let high: u16 = task.range.high();
    let ghost before = collector@;
    let ghost mut found: Seq<u16> = Seq::empty();
    let mut port: u16 = low;
    proof {
        lemma_outcome_empty(connect, task.base, low as int, retries);
    }
    while port < high
        invariant
            low == task.range@.low,
            high == task.range@.high,
            low <= port <= high,
            can_probe(connect, task.base, task.range@),
            collector@ == before + found,
            sweep_outcome(
                connect,
                task.base,
                Span { low: low as int, high: port as int },
                retries,
                found,
            ),
        decreases high - port,
    {
        assert(task.range@.contains(port as int));
        let open: bool = probe(connect, task.base, port, retries);
        if open {
            collector.append(port);
        }
        proof {
            let step = if open {
                seq![port]
            } else {
                Seq::<u16>::empty()
            };
            lemma_outcome_single(connect, task.base, port, retries, open);
            lemma_outcome_join(
                connect,
                task.base,
                Span { low: low as int, high: port as int },
                Span { low: port as int, high: port + 1 },
                retries,
                found,
                step,
            );
            assert(collector@ =~= before + (found + step));
            found = found + step;
        }
        port = port + 1;
    }
    assert(collector@.skip(before.len() as int) =~= found);
    assert(task.range@ == Span { low: low as int, high: high as int });
}

} // verus!
