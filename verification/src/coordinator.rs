//! The scan coordinator: the whole range split among head tasks, each
//! with a worker pool of its own, and their findings merged into one
//! report.

use crate::address::TargetAddress;
use crate::config::{ConfigError, ScanConfig};
use crate::partition::{chunks, lemma_chunks_tile, lemma_tiles_within, partition, spans, tiles};
use crate::pool::{worker_plan, WorkerPool};
use crate::probe::{can_probe, lemma_outcome_empty, lemma_outcome_join, sweep_outcome};
use crate::range::{PortRange, Span};
use std::time::{Duration, Instant};
use vstd::prelude::*;

verus! {

/// `std::time::Instant`: a point in time as the system's monotonic clock
/// gives it. It is carried through unread.
#[verifier::external_type_specification]
#[verifier::external_body]
pub struct ExInstant(Instant);

/// `std::time::Instant::now` reads the clock. What it reads differs from call to
/// call, so nothing is claimed of it.
pub assume_specification[ Instant::now ]() -> (now: Instant);

/// `std::time::Instant::elapsed` gives the time since the instant was taken. It
/// depends on the clock, so nothing is claimed of it.
pub assume_specification[ Instant::elapsed ](since: &Instant) -> (elapsed: Duration);

/// The report of a scan: the open ports, and how long the scan took.
#[derive(Debug)]
pub struct ScanResult {
    /// The open ports, head task after head task in increasing order of
    /// their sub-ranges, and for each in the order in which its pool
    /// collected them.
    pub ports: Vec<u16>,
    /// The time from just before the first head task was started to just
    /// after the last result was taken in.
    pub elapsed: Duration,
}

/// The findings of all head tasks in one list, task after task.
pub open spec fn merged(lists: Seq<Vec<u16>>) -> Seq<u16> {
    lists.map_values(|list: Vec<u16>| list@).flatten()
}

/// Adding the findings of one more head task adds them at the end.
pub proof fn lemma_merged_push(lists: Seq<Vec<u16>>, list: Vec<u16>)
    ensures
        merged(lists.push(list)) == merged(lists) + list@,
{
    let views = lists.map_values(|list: Vec<u16>| list@);
    assert(lists.push(list).map_values(|list: Vec<u16>| list@) =~= views.push(list@));
    views.lemma_flatten_push(list@);
}

/// Joins the findings of the head tasks, in the order of the tasks.
pub fn merge(lists: &Vec<Vec<u16>>) -> (ports: Vec<u16>)
    ensures
        ports@ == merged(lists@),
{
    let mut ports: Vec<u16> = Vec::new();
    let mut i: usize = 0;
    assert(lists@.take(0) =~= Seq::<Vec<u16>>::empty());
    assert(merged(lists@.take(0)) =~= Seq::<u16>::empty());
    while i < lists.len()
        invariant
            0 <= i <= lists@.len(),
            ports@ == merged(lists@.take(i as int)),
        decreases lists@.len() - i,
    {
        let list = &lists[i];
        let ghost before = ports@;
        let mut j: usize = 0;
        while j < list.len()
            invariant
                0 <= j <= list@.len(),
                ports@ == before + list@.take(j as int),
            decreases list@.len() - j,
        {
            ports.push(list[j]);
            j = j + 1;
            assert(ports@ =~= before + list@.take(j as int));
        }
        proof {
            assert(list@.take(j as int) =~= list@);
            lemma_merged_push(lists@.take(i as int), *list);
            assert(lists@.take(i + 1) =~= lists@.take(i as int).push(*list));
        }
        i = i + 1;
    }
    assert(lists@.take(i as int) =~= lists@);
    ports
}

impl ScanResult {
    /// The report made of the head tasks' findings, in the order of the
    /// tasks, and of the time that the scan took.
    pub fn assemble(lists: &Vec<Vec<u16>>, elapsed: Duration) -> (report: ScanResult)
        ensures
            report.ports@ == merged(lists@),
            report.elapsed == elapsed,
    {
        ScanResult { ports: merge(lists), elapsed }
    }
}

/// The sub-ranges of the head tasks of a valid request.
pub open spec fn head_plan(config: ScanConfig) -> Seq<Span> {
    chunks(config.span(), config.head_count as int)
}

/// The slices of all scanner workers of a scan, head task after head task
/// and, for each, worker after worker.
pub open spec fn scan_plan(config: ScanConfig) -> Seq<Span> {
    Seq::new(
        head_plan(config).len(),
        |i: int| worker_plan(head_plan(config)[i], config.local_worker_count as int),
    ).flatten()
}

/// Checks the request and splits its range among the head tasks.
pub fn head_ranges(config: &ScanConfig) -> (heads: Result<Vec<PortRange>, ConfigError>)
    ensures
        match heads {
            Ok(list) => config.fault() is None && spans(list@) == head_plan(*config),
            Err(e) => config.fault() == Some(e),
        },
{
    let range = config.validate()?;
    match partition(range, config.head_count) {
        Some(list) => Ok(list),
        None => Err(ConfigError::NoHeads),
    }
}

/// Scans the ports of the request, head task after head task and worker
/// after worker, and reports the open ones. A request that is wrong is
/// refused before any port is probed.
pub fn scan<F: Fn(TargetAddress) -> bool>(config: &ScanConfig, connect: &F) -> (outcome: Result<
    ScanResult,
    ConfigError,
>)
    requires
        can_probe(connect, config.target, config.span()),
    ensures
        match outcome {
            Ok(report) => config.fault() is None && sweep_outcome(
                connect,
                config.target,
                config.span(),
                config.retries,
                report.ports@,
            ),
            Err(e) => config.fault() == Some(e),
        },
{
    let heads = head_ranges(config)?;
    let ghost whole = config.span();
    let ghost plan = head_plan(*config);
    proof {
        lemma_chunks_tile(whole, config.head_count as int);
        lemma_outcome_empty(connect, config.target, whole.low, config.retries);
        assert(spans(heads@).len() == heads@.len());
    }
    let started = Instant::now();
    let mut lists: Vec<Vec<u16>> = Vec::new();
    let mut i: usize = 0;
    assert(merged(lists@) =~= Seq::<u16>::empty());
    while i < heads.len()
        invariant
            0 <= i <= heads@.len(),
            config.fault() is None,
            whole == config.span(),
            plan == head_plan(*config),
            spans(heads@) == plan,
            heads@.len() == plan.len(),
            tiles(plan, whole),
            plan.len() > 0,
            can_probe(connect, config.target, whole),
            lists@.len() == i,
            sweep_outcome(
                connect,
                config.target,
                Span {
                    low: whole.low,
                    high: if i < plan.len() {
                        plan[i as int].low
                    } else {
                        whole.high
                    },
                },
                config.retries,
                merged(lists@),
            ),
        decreases heads@.len() - i,
    {
        let head = heads[i];
        let ghost piece = plan[i as int];
        proof {
            assert(spans(heads@)[i as int] == head@);
            lemma_tiles_within(plan, whole, i as int);
        }
        let pool = match WorkerPool::build(
            config.local_worker_count,
            head.low(),
            head.high(),
            config.target,
        ) {
            Ok(pool) => pool,
            Err(e) => {
                return Err(e);
            },
        };
        proof {
            assert(pool.span() == piece);
            assert forall|port: u16| #[trigger] piece.contains(port as int) implies connect.requires(
                (config.target.at(port),),
            ) by {
                assert(whole.contains(port as int));
            }
        }
        let found = pool.run(config.retries, connect);
        proof {
            lemma_outcome_join(
                connect,
                config.target,
                Span { low: whole.low, high: piece.low },
                piece,
                config.retries,
                merged(lists@),
                found@,
            );
            lemma_merged_push(lists@, found);
            if i + 1 < plan.len() {
                assert(plan[i as int].high == plan[i + 1].low);
            }
        }
        lists.push(found);
        i = i + 1;
    }
    let elapsed = started.elapsed();
    Ok(ScanResult::assemble(&lists, elapsed))
}

} // verus!
