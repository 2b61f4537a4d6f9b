//! What holds of every scan, whatever the request and whatever the host
//! answers.

use crate::address::TargetAddress;
use crate::config::ScanConfig;
use crate::coordinator::{head_plan, scan_plan};
use crate::partition::{
    all_ports, lemma_chunks_tile, lemma_tiles_cover_once, lemma_tiles_front, lemma_tiles_ports,
    lemma_tiles_within, tiles,
};
use crate::pool::{lemma_worker_plan_tiles, worker_plan};
use crate::probe::{lemma_outcome_empty, lemma_outcome_join, sweep_outcome};
use crate::range::Span;
use vstd::prelude::*;
use vstd::seq_lib::lemma_flatten_concat;

verus! {

/// The ports of two lists of slices, one behind the other.
proof fn lemma_all_ports_concat(first: Seq<Span>, second: Seq<Span>)
    ensures
        all_ports(first + second) == all_ports(first) + all_ports(second),
{
    let f = |piece: Span| piece.ports();
    assert((first + second).map_values(f) =~= first.map_values(f) + second.map_values(f));
    lemma_flatten_concat(first.map_values(f), second.map_values(f));
}

/// Splitting each of some spans among workers changes nothing in the
/// ports that are held, nor in their order.
proof fn lemma_nested_ports(heads: Seq<Span>, workers: int)
    requires
        workers > 0,
        forall|i: int| 0 <= i < heads.len() ==> (#[trigger] heads[i]).low <= heads[i].high,
    ensures
        all_ports(Seq::new(heads.len(), |i: int| worker_plan(heads[i], workers)).flatten())
            == all_ports(heads),
    decreases heads.len(),
{
    let plans = Seq::new(heads.len(), |i: int| worker_plan(heads[i], workers));
    if heads.len() == 0 {
        assert(plans =~= Seq::<Seq<Span>>::empty());
        assert(heads =~= Seq::<Span>::empty());
        assert(heads.map_values(|piece: Span| piece.ports()) =~= Seq::<Seq<u16>>::empty());
        assert(plans.flatten().map_values(|piece: Span| piece.ports()) =~= Seq::<
            Seq<u16>,
        >::empty());
    } else {
        let front = heads.drop_last();
        let last = heads.last();
        let front_plans = Seq::new(front.len(), |i: int| worker_plan(front[i], workers));
        assert forall|i: int| 0 <= i < front.len() implies (#[trigger] front[i]).low
            <= front[i].high by {
            assert(front[i] == heads[i]);
        }
        lemma_nested_ports(front, workers);
        assert(plans =~= front_plans.push(worker_plan(last, workers)));
        front_plans.lemma_flatten_push(worker_plan(last, workers));
        lemma_all_ports_concat(front_plans.flatten(), worker_plan(last, workers));
        lemma_worker_plan_tiles(last, workers);
        lemma_tiles_ports(worker_plan(last, workers), last);
        assert(heads =~= front + seq![last]);
        lemma_all_ports_concat(front, seq![last]);
        assert(all_ports(seq![last]) == last.ports()) by {
            let lists = seq![last].map_values(|piece: Span| piece.ports());
            assert(lists =~= Seq::<Seq<u16>>::empty().push(last.ports()));
            Seq::<Seq<u16>>::empty().lemma_flatten_push(last.ports());
        }
    }
}

/// For every valid request, the slices of all scanner workers,
/// taken head task after head task and worker after worker, hold the ports
/// of the requested range in increasing order: each port once, and no
/// other port.
pub proof fn law_every_port_in_one_task(config: ScanConfig)
    requires
        config.fault() is None,
    ensures
        all_ports(scan_plan(config)) == config.span().ports(),
        config.span().ports().no_duplicates(),
        config.span().ports().to_set() == config.span().port_set(),
{
    let whole = config.span();
    let heads = head_plan(config);
    lemma_chunks_tile(whole, config.head_count as int);
    assert forall|i: int| 0 <= i < heads.len() implies (#[trigger] heads[i]).low
        <= heads[i].high by {
        lemma_tiles_within(heads, whole, i);
    }
    lemma_nested_ports(heads, config.local_worker_count as int);
    lemma_tiles_ports(heads, whole);
    lemma_ports_distinct(whole);
}

/// The ports of a span of real ports are all different, and they are the
/// ports that the span contains.
pub proof fn lemma_ports_distinct(span: Span)
    requires
        span.valid(),
    ensures
        span.ports().no_duplicates(),
        span.ports().to_set() == span.port_set(),
{
    let ports = span.ports();
    assert forall|port: u16| ports.to_set().contains(port) <==> span.port_set().contains(
        port,
    ) by {
        if span.contains(port as int) {
            assert(ports[port - span.low] == port);
        }
    }
    assert(ports.to_set() =~= span.port_set());
}

/// In a pool, a port of the range belongs to one slice and to no second
/// one, and no slice holds a port from outside the range.
pub proof fn law_port_has_one_owner(span: Span, count: int, port: int)
    requires
        span.low <= span.high,
        count > 0,
    ensures
        ({
            let plan = worker_plan(span, count);
            &&& span.contains(port) <==> exists|i: int|
                0 <= i < plan.len() && (#[trigger] plan[i]).contains(port)
            &&& forall|i: int, j: int|
                0 <= i < plan.len() && 0 <= j < plan.len() && (#[trigger] plan[i]).contains(port)
                    && (#[trigger] plan[j]).contains(port) ==> i == j
        }),
{
    lemma_worker_plan_tiles(span, count);
    lemma_tiles_cover_once(worker_plan(span, count), span, port);
}

/// The connection attempts answer as the set `open` says: an attempt at
/// a port of the host succeeds exactly where the port is in the set.
pub open spec fn reports<F: Fn(TargetAddress) -> bool>(
    connect: &F,
    base: TargetAddress,
    open: Set<u16>,
) -> bool {
    forall|port: u16, answer: bool| #[trigger]
        connect.ensures((base.at(port),), answer) ==> answer == open.contains(port)
}

/// Two lists in increasing order that hold the same values are the same
/// list.
proof fn lemma_increasing_same(a: Seq<u16>, b: Seq<u16>)
    requires
        forall|i: int, j: int| 0 <= i < j < a.len() ==> a[i] < a[j],
        forall|i: int, j: int| 0 <= i < j < b.len() ==> b[i] < b[j],
        forall|v: u16| a.contains(v) <==> b.contains(v),
    ensures
        a == b,
    decreases a.len(),
{
    if a.len() == 0 {
        if b.len() > 0 {
            assert(b.contains(b[0]));
        }
        assert(a =~= b);
    } else {
        let top = a.last();
        assert(a.contains(top));
        assert(b.contains(top));
        assert(b.contains(b.last()));
        assert(a.contains(b.last()));
        let ia = choose|i: int| 0 <= i < a.len() && a[i] == b.last();
        let ib = choose|i: int| 0 <= i < b.len() && b[i] == top;
        assert(b.last() == top);
        let a0 = a.drop_last();
        let b0 = b.drop_last();
        assert forall|v: u16| a0.contains(v) <==> b0.contains(v) by {
            if a0.contains(v) {
                let i = choose|i: int| 0 <= i < a0.len() && a0[i] == v;
                assert(a[i] == v);
                assert(a.contains(v));
                let j = choose|j: int| 0 <= j < b.len() && b[j] == v;
                assert(v < top);
                assert(b0[j] == v);
            }
            if b0.contains(v) {
                let i = choose|i: int| 0 <= i < b0.len() && b0[i] == v;
                assert(b[i] == v);
                assert(b.contains(v));
                let j = choose|j: int| 0 <= j < a.len() && a[j] == v;
                assert(v < top);
                assert(a0[j] == v);
            }
        }
        lemma_increasing_same(a0, b0);
        assert(a =~= a0.push(top));
        assert(b =~= b0.push(top));
    }
}

/// Where the host answers as the set `open` says and each
/// port is tried at least once, a sweep over `span` finds the ports of
/// `open` that lie in `span` and no others, each once.
pub proof fn law_finds_exactly_the_open_ports<F: Fn(TargetAddress) -> bool>(
    connect: &F,
    base: TargetAddress,
    span: Span,
    retries: u8,
    found: Seq<u16>,
    open: Set<u16>,
)
    requires
        span.valid(),
        retries > 0,
        reports(connect, base, open),
        sweep_outcome(connect, base, span, retries, found),
    ensures
        found.to_set() == open.intersect(span.port_set()),
        open.subset_of(span.port_set()) ==> found.to_set() == open,
        found.no_duplicates(),
        found.len() == open.intersect(span.port_set()).len(),
{
    assert forall|port: u16| found.to_set().contains(port) <==> open.intersect(
        span.port_set(),
    ).contains(port) by {
        if found.contains(port) {
            let i = choose|i: int| 0 <= i < found.len() && found[i] == port;
            assert(span.contains(found[i] as int));
        }
        if span.contains(port as int) {
            assert(connect.ensures((base.at(port),), found.contains(port)));
        }
    }
    assert(found.to_set() =~= open.intersect(span.port_set()));
    if open.subset_of(span.port_set()) {
        assert(open.intersect(span.port_set()) =~= open);
    }
    found.unique_seq_to_set();
}

/// Where the host answers as
/// the set `open` says, two sweeps over the same ports find the same open
/// ports in the same order, however each scan was split among head tasks
/// and workers and however often it tried, if at least once.
pub proof fn law_same_findings_every_time<F: Fn(TargetAddress) -> bool>(
    connect: &F,
    base: TargetAddress,
    span: Span,
    open: Set<u16>,
    first_retries: u8,
    first: Seq<u16>,
    second_retries: u8,
    second: Seq<u16>,
)
    requires
        span.valid(),
        first_retries > 0,
        second_retries > 0,
        reports(connect, base, open),
        sweep_outcome(connect, base, span, first_retries, first),
        sweep_outcome(connect, base, span, second_retries, second),
    ensures
        first == second,
{
    law_finds_exactly_the_open_ports(connect, base, span, first_retries, first, open);
    law_finds_exactly_the_open_ports(connect, base, span, second_retries, second, open);
    assert forall|v: u16| first.contains(v) <==> second.contains(v) by {
        assert(first.to_set().contains(v) <==> second.to_set().contains(v));
    }
    lemma_increasing_same(first, second);
}

/// Sweeps over the pieces of a tiling, put together piece after piece, make
/// a sweep over the whole.
pub proof fn lemma_outcome_of_tiling<F: Fn(TargetAddress) -> bool>(
    connect: &F,
    base: TargetAddress,
    pieces: Seq<Span>,
    whole: Span,
    retries: u8,
    findings: Seq<Seq<u16>>,
)
    requires
        tiles(pieces, whole),
        findings.len() == pieces.len(),
        forall|i: int|
            0 <= i < pieces.len() ==> sweep_outcome(
                connect,
                base,
                #[trigger] pieces[i],
                retries,
                findings[i],
            ),
    ensures
        sweep_outcome(connect, base, whole, retries, findings.flatten()),
    decreases pieces.len(),
{
    if pieces.len() == 0 {
        lemma_outcome_empty(connect, base, whole.low, retries);
        assert(findings =~= Seq::<Seq<u16>>::empty());
        assert(findings.flatten() =~= Seq::<u16>::empty());
    } else {
        let last = pieces.last();
        let front = pieces.drop_last();
        let front_whole = Span { low: whole.low, high: last.low };
        let front_findings = findings.drop_last();
        lemma_tiles_front(pieces, whole);
        assert forall|i: int| 0 <= i < front.len() implies sweep_outcome(
            connect,
            base,
            #[trigger] front[i],
            retries,
            front_findings[i],
        ) by {
            assert(front[i] == pieces[i]);
            assert(front_findings[i] == findings[i]);
        }
        lemma_outcome_of_tiling(connect, base, front, front_whole, retries, front_findings);
        assert(sweep_outcome(connect, base, pieces[pieces.len() - 1], retries, findings.last()));
        lemma_outcome_join(
            connect,
            base,
            front_whole,
            last,
            retries,
            front_findings.flatten(),
            findings.last(),
        );
        assert(findings =~= front_findings.push(findings.last()));
        front_findings.lemma_flatten_push(findings.last());
        assert(whole == Span { low: front_whole.low, high: last.high });
    }
}

/// Where the workers of a pool hand their findings to the collector in
/// whatever order they come, the collector ends with one entry for each
/// open port of the pool's range and with no other entry: nothing is lost
/// and nothing comes twice. `pieces` are the workers' slices, `findings`
/// what each worker found, and `collected` holds all findings in some
/// order.
pub proof fn law_collector_holds_each_open_port_once<F: Fn(TargetAddress) -> bool>(
    connect: &F,
    base: TargetAddress,
    pieces: Seq<Span>,
    whole: Span,
    retries: u8,
    findings: Seq<Seq<u16>>,
    collected: Seq<u16>,
    open: Set<u16>,
)
    requires
        whole.valid(),
        retries > 0,
        reports(connect, base, open),
        tiles(pieces, whole),
        findings.len() == pieces.len(),
        forall|i: int|
            0 <= i < pieces.len() ==> sweep_outcome(
                connect,
                base,
                #[trigger] pieces[i],
                retries,
                findings[i],
            ),
        collected.to_multiset() == findings.flatten().to_multiset(),
    ensures
        collected.no_duplicates(),
        collected.to_set() == open.intersect(whole.port_set()),
        collected.len() == open.intersect(whole.port_set()).len(),
{
    broadcast use vstd::seq_lib::to_multiset_contains, vstd::seq_lib::to_multiset_len;

    let ordered = findings.flatten();
    lemma_outcome_of_tiling(connect, base, pieces, whole, retries, findings);
    law_finds_exactly_the_open_ports(connect, base, whole, retries, ordered, open);
    ordered.lemma_multiset_has_no_duplicates();
    collected.lemma_multiset_has_no_duplicates_conv();
    assert forall|port: u16| collected.to_set().contains(port) <==> ordered.to_set().contains(
        port,
    ) by {
        assert(collected.contains(port) <==> collected.to_multiset().count(port) > 0);
        assert(ordered.contains(port) <==> ordered.to_multiset().count(port) > 0);
    }
    assert(collected.to_set() =~= ordered.to_set());
    assert(collected.len() == collected.to_multiset().len());
    assert(ordered.len() == ordered.to_multiset().len());
}

/// A pool for an empty range has no slice to hand out, so it
/// starts no worker, and a sweep over an empty range finds nothing.
pub proof fn law_empty_range_finds_nothing<F: Fn(TargetAddress) -> bool>(
    connect: &F,
    base: TargetAddress,
    span: Span,
    workers: int,
    retries: u8,
    found: Seq<u16>,
)
    requires
        span.low == span.high,
        sweep_outcome(connect, base, span, retries, found),
    ensures
        worker_plan(span, workers).len() == 0,
        found.len() == 0,
{
    if found.len() > 0 {
        assert(span.contains(found[0] as int));
    }
}

/// A scan with one head task is the scan of one pool over the
/// whole range.
pub proof fn law_one_head_is_one_pool(config: ScanConfig)
    requires
        config.fault() is None,
        config.head_count == 1,
    ensures
        head_plan(config) == seq![config.span()],
        scan_plan(config) == worker_plan(config.span(), config.local_worker_count as int),
{
    let whole = config.span();
    assert(head_plan(config) =~= seq![whole]) by {
        assert(1 * crate::partition::chunk_size(whole, 1) == crate::partition::chunk_size(
            whole,
            1,
        ));
        assert(0 * crate::partition::chunk_size(whole, 1) == 0);
    }
    let plan = worker_plan(whole, config.local_worker_count as int);
    let plans = Seq::new(
        head_plan(config).len(),
        |i: int| worker_plan(head_plan(config)[i], config.local_worker_count as int),
    );
    assert(plans =~= Seq::<Seq<Span>>::empty().push(plan));
    Seq::<Seq<Span>>::empty().lemma_flatten_push(plan);
    assert(Seq::<Seq<Span>>::empty().flatten() =~= Seq::<Span>::empty());
    assert(scan_plan(config) =~= plan);
}

} // verus!
