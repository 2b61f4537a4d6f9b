//! The worker pool: one sub-range of ports, split among a fixed number of
//! scanner workers.

use crate::address::TargetAddress;
use crate::collector::OpenPortCollector;
use crate::config::ConfigError;
use crate::partition::{chunks, lemma_chunks_tile, lemma_tiles_within, partition, spans, tiles};
use crate::probe::{can_probe, lemma_outcome_empty, lemma_outcome_join, sweep_outcome};
use crate::range::{PortRange, Span};
use crate::worker::{scan_task, ScanTask};
use vstd::prelude::*;

verus! {

/// The slices that a pool for `span` hands to its `workers` workers: none
/// where it has no port to probe, else one chunk for each worker.
pub open spec fn worker_plan(span: Span, workers: int) -> Seq<Span> {
    if span.len() == 0 {
        Seq::empty()
    } else {
        chunks(span, workers)
    }
}

/// The slices of a worker plan tile the span that it was made for:
/// together they hold each of its ports once and no other port.
pub proof fn lemma_worker_plan_tiles(span: Span, workers: int)
    requires
        span.low <= span.high,
        workers > 0,
    ensures
        tiles(worker_plan(span, workers), span),
{
    if span.len() > 0 {
        lemma_chunks_tile(span, workers);
    }
}

/// A pool of scanner workers for the ports `[low, high)` of one host.
#[derive(Clone, Copy, Debug, PartialEq, Eq)]
pub struct WorkerPool {
    worker_count: u16,
    range: PortRange,
    base: TargetAddress,
}

impl WorkerPool {
    #[verifier::type_invariant]
    pub open spec fn wf(self) -> bool {
        self.workers() > 0 && self.span().valid()
    }

    /// The number of workers that the pool was built for.
    pub closed spec fn workers(self) -> int {
        self.worker_count as int
    }

    /// The ports that the pool answers for.
    pub closed spec fn span(self) -> Span {
        self.range@
    }

    /// The host that the pool probes.
    pub closed spec fn base(self) -> TargetAddress {
        self.base
    }

    /// The slices that the pool hands to its workers.
    pub open spec fn plan(self) -> Seq<Span> {
        worker_plan(self.span(), self.workers())
    }

    /// A pool of `worker_count` workers for the ports `[low, high)` of the
    /// host of `base`. A range that runs backwards is refused, and so is a
    /// pool without workers.
    pub fn build(worker_count: u16, low: u16, high: u16, base: TargetAddress) -> (built: Result<
        WorkerPool,
        ConfigError,
    >)
        ensures
            match built {
                Ok(pool) => {
                    &&& low <= high
                    &&& worker_count > 0
                    &&& pool.workers() == worker_count
                    &&& pool.span() == (Span { low: low as int, high: high as int })
                    &&& pool.base() == base
                    &&& pool.wf()
                },
                Err(e) => if low > high {
                    e == ConfigError::BackwardRange
                } else {
                    worker_count == 0 && e == ConfigError::NoWorkers
                },
            },
    {
        match PortRange::new(low, high) {
            None => Err(ConfigError::BackwardRange),
            Some(range) => {
                if worker_count == 0 {
                    Err(ConfigError::NoWorkers)
                } else {
                    Ok(WorkerPool { worker_count, range, base })
                }
            },
        }
    }

    /// The tasks of the pool's workers, in increasing order of their ports.
    pub fn tasks(&self) -> (tasks: Vec<ScanTask>)
        ensures
            tasks@.len() == self.plan().len(),
            forall|i: int|
                0 <= i < tasks@.len() ==> (#[trigger] tasks@[i]).base == self.base()
                    && tasks@[i].range@ == self.plan()[i],
    {
        proof {
            use_type_invariant(self);
        }
        let mut tasks: Vec<ScanTask> = Vec::new();
        if self.range.is_empty() {
            return tasks;
        }
        match partition(self.range, self.worker_count) {
            None => {},
            Some(pieces) => {
                let mut i: usize = 0;
                while i < pieces.len()
                    invariant
                        0 <= i <= pieces@.len(),
                        spans(pieces@) == self.plan(),
                        tasks@.len() == i,
                        forall|k: int|
                            0 <= k < i ==> (#[trigger] tasks@[k]).base == self.base()
                                && tasks@[k].range@ == self.plan()[k],
                    decreases pieces@.len() - i,
                {
                    assert(spans(pieces@)[i as int] == pieces@[i as int]@);
                    tasks.push(ScanTask { base: self.base, range: pieces[i] });
                    i = i + 1;
                }
                assert(spans(pieces@).len() == pieces@.len());
            },
        }
        tasks
    }

    /// Runs the pool's tasks one after the other and gives the open ports
    /// that they found.
    pub fn run<F: Fn(TargetAddress) -> bool>(&self, retries: u8, connect: &F) -> (found: Vec<u16>)
        requires
            can_probe(connect, self.base(), self.span()),
        ensures
            sweep_outcome(connect, self.base(), self.span(), retries, found@),
    {
        proof {
            use_type_invariant(self);
            lemma_worker_plan_tiles(self.span(), self.workers());
        }
        let tasks = self.tasks();
        let ghost plan = self.plan();
        let ghost whole = self.span();
        let mut collector = OpenPortCollector::new();
        let mut i: usize = 0;
        proof {
            lemma_outcome_empty(connect, self.base(), whole.low, retries);
        }
        while i < tasks.len()
            invariant
                0 <= i <= tasks@.len(),
                plan == self.plan(),
                whole == self.span(),
                whole.valid(),
                tiles(plan, whole),
                tasks@.len() == plan.len(),
                forall|k: int|
                    0 <= k < tasks@.len() ==> (#[trigger] tasks@[k]).base == self.base()
                        && tasks@[k].range@ == plan[k],
                can_probe(connect, self.base(), whole),
                sweep_outcome(
                    connect,
                    self.base(),
                    Span {
                        low: whole.low,
                        high: if i < plan.len() {
                            plan[i as int].low
                        } else {
                            whole.high
                        },
                    },
                    retries,
                    collector@,
                ),
            decreases tasks@.len() - i,
        {
            let ghost before = collector@;
            let ghost piece = plan[i as int];
            proof {
                lemma_tiles_within(plan, whole, i as int);
                assert(tasks@[i as int].range@ == piece);
                assert forall|port: u16| #[trigger] piece.contains(port as int) implies connect.requires(
                    (self.base().at(port),),
                ) by {
                    assert(whole.contains(port as int));
                }
            }
            scan_task(&tasks[i], retries, connect, &mut collector);
            proof {
                let step = collector@.skip(before.len() as int);
                lemma_outcome_join(
                    connect,
                    self.base(),
                    Span { low: whole.low, high: piece.low },
                    piece,
                    retries,
                    before,
                    step,
                );
                assert(collector@ =~= before + step);
                if i + 1 < plan.len() {
                    assert(plan[i as int].high == plan[i + 1].low);
                }
            }
            i = i + 1;
        }
        proof {
            if plan.len() == 0 {
                assert(whole.low == whole.high);
            }
        }
        collector.drain()
    }
}

} // verus!
