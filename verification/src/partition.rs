//! Splitting a port range into contiguous chunks, one per worker.
//!
//! A range of `n` ports split `count` ways gives `count` chunks of
//! `n / count` ports each, in increasing order; the ports left over by the
//! division go to the last chunk, so that no port is dropped.

use crate::range::{PortRange, Span};
use vstd::prelude::*;

verus! {

/// The number of ports in every chunk but the last.
pub open spec fn chunk_size(whole: Span, count: int) -> int
    recommends
        count > 0,
{
    (whole.len() as int) / count
}

/// The `i`-th of the `count` chunks of `whole`.
pub open spec fn chunk(whole: Span, count: int, i: int) -> Span
    recommends
        0 <= i < count,
{
    Span {
        low: whole.low + i * chunk_size(whole, count),
        high: if i == count - 1 {
            whole.high
        } else {
            whole.low + (i + 1) * chunk_size(whole, count)
        },
    }
}

/// All `count` chunks of `whole`, in increasing order.
pub open spec fn chunks(whole: Span, count: int) -> Seq<Span>
    recommends
        count > 0,
{
    Seq::new(count as nat, |i: int| chunk(whole, count, i))
}

/// The models of a list of ranges.
pub open spec fn spans(pieces: Seq<PortRange>) -> Seq<Span> {
    pieces.map_values(|piece: PortRange| piece@)
}

/// `pieces` tile `whole`: each piece runs forwards, each begins where the one
/// before it ends, the first begins where `whole` begins and the last ends
/// where `whole` ends. No pieces at all tile an empty span.
pub open spec fn tiles(pieces: Seq<Span>, whole: Span) -> bool {
    &&& forall|i: int| 0 <= i < pieces.len() ==> (#[trigger] pieces[i]).low <= pieces[i].high
    &&& forall|i: int|
        0 <= i < pieces.len() - 1 ==> (#[trigger] pieces[i]).high == pieces[i + 1].low
    &&& if pieces.len() == 0 {
        whole.low == whole.high
    } else {
        pieces[0].low == whole.low && pieces[pieces.len() - 1].high == whole.high
    }
}

/// The ports of all pieces, piece after piece.
pub open spec fn all_ports(pieces: Seq<Span>) -> Seq<u16> {
    pieces.map_values(|piece: Span| piece.ports()).flatten()
}

/// Every chunk but the last ends within the whole span.
pub proof fn lemma_chunk_bounds(whole: Span, count: int, i: int)
    requires
        whole.low <= whole.high,
        0 <= i < count,
    ensures
        whole.low <= chunk(whole, count, i).low <= chunk(whole, count, i).high <= whole.high,
        i + 1 < count ==> chunk(whole, count, i).high == chunk(whole, count, i + 1).low,
        i == 0 ==> chunk(whole, count, i).low == whole.low,
        i == count - 1 ==> chunk(whole, count, i).high == whole.high,
{
    let n = whole.len() as int;
    let size = chunk_size(whole, count);
    assert(0 <= size && size * count <= n) by (nonlinear_arith)
        requires
            size == n / count,
            count > 0,
            n >= 0,
    ;
    assert(0 <= i * size <= (i + 1) * size <= count * size) by (nonlinear_arith)
        requires
            0 <= i < count,
            0 <= size,
    ;
    assert(size * count == count * size) by (nonlinear_arith);
    assert(0 * size == 0) by (nonlinear_arith);
}

/// The chunks of a span tile it.
pub proof fn lemma_chunks_tile(whole: Span, count: int)
    requires
        whole.low <= whole.high,
        count > 0,
    ensures
        tiles(chunks(whole, count), whole),
        chunks(whole, count).len() == count,
{
    let pieces = chunks(whole, count);
    assert forall|i: int| 0 <= i < pieces.len() implies (#[trigger] pieces[i]).low
        <= pieces[i].high by {
        lemma_chunk_bounds(whole, count, i);
    }
    assert forall|i: int| 0 <= i < pieces.len() - 1 implies (#[trigger] pieces[i]).high
        == pieces[i + 1].low by {
        lemma_chunk_bounds(whole, count, i);
    }
    lemma_chunk_bounds(whole, count, 0);
    lemma_chunk_bounds(whole, count, count - 1);
}

/// The pieces of a tiling stand in increasing order.
pub proof fn lemma_tiles_increasing(pieces: Seq<Span>, whole: Span, i: int, j: int)
    requires
        tiles(pieces, whole),
        0 <= i <= j < pieces.len(),
    ensures
        pieces[i].low <= pieces[j].low,
        pieces[i].high <= pieces[j].high,
        i < j ==> pieces[i].high <= pieces[j].low,
    decreases j - i,
{
    if i < j {
        lemma_tiles_increasing(pieces, whole, i, j - 1);
        assert(pieces[j - 1].high == pieces[j].low);
        assert(pieces[j].low <= pieces[j].high);
        assert(pieces[j - 1].low <= pieces[j - 1].high);
    }
}

/// Every piece of a tiling lies within the whole.
pub proof fn lemma_tiles_within(pieces: Seq<Span>, whole: Span, i: int)
    requires
        tiles(pieces, whole),
        0 <= i < pieces.len(),
    ensures
        whole.low <= pieces[i].low <= pieces[i].high <= whole.high,
{
    lemma_tiles_increasing(pieces, whole, 0, i);
    lemma_tiles_increasing(pieces, whole, i, pieces.len() - 1);
    assert(pieces[i].low <= pieces[i].high);
}

/// Some piece at or after the `from`-th holds `port`.
proof fn lemma_find_owner(pieces: Seq<Span>, whole: Span, port: int, from: int) -> (i: int)
    requires
        tiles(pieces, whole),
        0 <= from < pieces.len(),
        pieces[from].low <= port < whole.high,
    ensures
        from <= i < pieces.len(),
        pieces[i].contains(port),
    decreases pieces.len() - from,
{
    if port < pieces[from].high {
        from
    } else {
        assert(pieces[from].high == pieces[from + 1].low);
        lemma_find_owner(pieces, whole, port, from + 1)
    }
}

/// Every port of the whole lies in one piece of a tiling, and in
/// no second one; and no piece holds a port from outside the whole.
pub proof fn lemma_tiles_cover_once(pieces: Seq<Span>, whole: Span, port: int)
    requires
        tiles(pieces, whole),
    ensures
        whole.contains(port) <==> exists|i: int|
            0 <= i < pieces.len() && (#[trigger] pieces[i]).contains(port),
        forall|i: int, j: int|
            0 <= i < pieces.len() && 0 <= j < pieces.len() && (#[trigger] pieces[i]).contains(port)
                && (#[trigger] pieces[j]).contains(port) ==> i == j,
{
    if whole.contains(port) {
        let i = lemma_find_owner(pieces, whole, port, 0);
        assert(pieces[i].contains(port));
    }
    assert forall|i: int| 0 <= i < pieces.len() && (#[trigger] pieces[i]).contains(port) implies whole.contains(port) by {
        lemma_tiles_within(pieces, whole, i);
    }
    assert forall|i: int, j: int|
        0 <= i < pieces.len() && 0 <= j < pieces.len() && (#[trigger] pieces[i]).contains(port)
            && (#[trigger] pieces[j]).contains(port) implies i == j by {
        if i < j {
            lemma_tiles_increasing(pieces, whole, i, j);
        } else if j < i {
            lemma_tiles_increasing(pieces, whole, j, i);
        }
    }
}

/// The ports of two spans that meet are the ports of the span they make up.
pub proof fn lemma_ports_join(low: int, mid: int, high: int)
    requires
        low <= mid <= high,
    ensures
        (Span { low, high: mid }).ports() + (Span { low: mid, high }).ports() == (Span {
            low,
            high,
        }).ports(),
{
    assert((Span { low, high: mid }).ports() + (Span { low: mid, high }).ports() =~= (Span {
        low,
        high,
    }).ports());
}

/// A tiling without its last piece tiles the whole up to where that piece
/// begins.
pub proof fn lemma_tiles_front(pieces: Seq<Span>, whole: Span)
    requires
        tiles(pieces, whole),
        pieces.len() > 0,
    ensures
        tiles(pieces.drop_last(), Span { low: whole.low, high: pieces.last().low }),
        whole.low <= pieces.last().low <= pieces.last().high == whole.high,
{
    let front = pieces.drop_last();
    lemma_tiles_within(pieces, whole, pieces.len() - 1);
    assert forall|i: int| 0 <= i < front.len() implies (#[trigger] front[i]).low
        <= front[i].high by {
        assert(front[i] == pieces[i]);
    }
    assert forall|i: int| 0 <= i < front.len() - 1 implies (#[trigger] front[i]).high
        == front[i + 1].low by {
        assert(front[i] == pieces[i]);
        assert(front[i + 1] == pieces[i + 1]);
    }
    if front.len() > 0 {
        assert(front[0] == pieces[0]);
        assert(front[front.len() - 1] == pieces[pieces.len() - 2]);
        assert(pieces[pieces.len() - 2].high == pieces[pieces.len() - 2 + 1].low);
    }
}

/// The ports of the pieces of a tiling, taken piece after piece, are the
/// ports of the whole in increasing order, each once.
pub proof fn lemma_tiles_ports(pieces: Seq<Span>, whole: Span)
    requires
        tiles(pieces, whole),
    ensures
        all_ports(pieces) == whole.ports(),
    decreases pieces.len(),
{
    let lists = pieces.map_values(|piece: Span| piece.ports());
    if pieces.len() == 0 {
        assert(lists =~= Seq::<Seq<u16>>::empty());
        assert(all_ports(pieces) =~= whole.ports());
    } else {
        let last = pieces.last();
        let front = pieces.drop_last();
        lemma_tiles_front(pieces, whole);
        lemma_tiles_ports(front, Span { low: whole.low, high: last.low });
        let front_lists = front.map_values(|piece: Span| piece.ports());
        assert(lists =~= front_lists.push(last.ports()));
        front_lists.lemma_flatten_push(last.ports());
        lemma_ports_join(whole.low, last.low, whole.high);
        assert(last == Span { low: last.low, high: whole.high });
    }
}

/// Splits `range` into `count` chunks; `None` where `count` is zero.
pub fn partition(range: PortRange, count: u16) -> (pieces: Option<Vec<PortRange>>)
    ensures
        count == 0 <==> pieces is None,
        pieces matches Some(list) ==> {
            &&& list@.len() == count
            &&& spans(list@) == chunks(range@, count as int)
            &&& forall|i: int|
                0 <= i < count ==> (#[trigger] list@[i])@ == chunk(range@, count as int, i)
        },
{
    if count == 0 {
        return None;
    }
    let low: u16 = range.low();
    let high: u16 = range.high();
    let size: u16 = (high - low) / count;
    let ghost whole = range@;
    let mut list: Vec<PortRange> = Vec::new();
    let mut start: u16 = low;
    let mut i: u16 = 0;
    while i < count
        invariant
            count > 0,
            whole == range@,
            whole.valid(),
            low == whole.low,
            high == whole.high,
            size == chunk_size(whole, count as int),
            0 <= i <= count,
            list@.len() == i,
            i < count ==> start == whole.low + i * size,
            forall|k: int| 0 <= k < i ==> (#[trigger] list@[k])@ == chunk(whole, count as int, k),
        decreases count - i,
    {
        proof {
            lemma_chunk_bounds(whole, count as int, i as int);
            assert(whole.low + (i + 1) * size == start + size) by (nonlinear_arith)
                requires
                    start == whole.low + i * size,
            ;
        }
        let end: u16 = if i == count - 1 {
            high
        } else {
            start + size
        };
        list.push(PortRange::between(start, end));
        start = end;
        i = i + 1;
    }
    assert(spans(list@) =~= chunks(range@, count as int));
    Some(list)
}

} // verus!
