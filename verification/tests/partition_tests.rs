use portscan::partition::partition;
use portscan::range::PortRange;

fn range(low: u16, high: u16) -> PortRange {
    PortRange::new(low, high).expect("bounds in order")
}

fn bounds(pieces: &[PortRange]) -> Vec<(u16, u16)> {
    pieces.iter().map(|p| (p.low(), p.high())).collect()
}

#[test]
fn range_refuses_backward_bounds() {
    assert!(PortRange::new(10, 9).is_none());
    assert!(PortRange::new(10, 10).is_some());
    assert!(PortRange::new(0, 65535).is_some());
}

#[test]
fn range_reports_its_bounds_and_length() {
    let r = range(8000, 8010);
    assert_eq!(r.low(), 8000);
    assert_eq!(r.high(), 8010);
    assert_eq!(r.len(), 10);
    assert!(!r.is_empty());
    assert!(range(7, 7).is_empty());
    assert_eq!(range(7, 7).len(), 0);
    assert_eq!(range(0, 65535).len(), 65535);
}

#[test]
fn range_is_half_open() {
    let r = range(8000, 8010);
    assert!(r.contains(8000));
    assert!(r.contains(8009));
    assert!(!r.contains(8010));
    assert!(!r.contains(7999));
}

#[test]
fn range_lists_its_ports_in_order() {
    assert_eq!(range(20, 25).ports(), vec![20, 21, 22, 23, 24]);
    assert_eq!(range(20, 20).ports(), Vec::<u16>::new());
    assert_eq!(range(65534, 65535).ports(), vec![65534]);
}

#[test]
fn partition_splits_evenly() {
    let pieces = partition(range(8000, 8010), 2).expect("two chunks");
    assert_eq!(bounds(&pieces), vec![(8000, 8005), (8005, 8010)]);
}

#[test]
fn partition_gives_the_remainder_to_the_last_chunk() {
    let pieces = partition(range(0, 10), 3).expect("three chunks");
    assert_eq!(bounds(&pieces), vec![(0, 3), (3, 6), (6, 10)]);
    let pieces = partition(range(100, 207), 10).expect("ten chunks");
    assert_eq!(pieces.len(), 10);
    assert_eq!((pieces[0].low(), pieces[0].high()), (100, 110));
    assert_eq!((pieces[8].low(), pieces[8].high()), (180, 190));
    assert_eq!((pieces[9].low(), pieces[9].high()), (190, 207));
}

#[test]
fn partition_with_more_chunks_than_ports() {
    let pieces = partition(range(5, 7), 4).expect("four chunks");
    assert_eq!(bounds(&pieces), vec![(5, 5), (5, 5), (5, 5), (5, 7)]);
}

#[test]
fn partition_of_an_empty_range() {
    let pieces = partition(range(9, 9), 3).expect("three chunks");
    assert_eq!(bounds(&pieces), vec![(9, 9), (9, 9), (9, 9)]);
}

#[test]
fn partition_into_one_chunk_is_the_range() {
    let pieces = partition(range(1, 1000), 1).expect("one chunk");
    assert_eq!(bounds(&pieces), vec![(1, 1000)]);
}

#[test]
fn partition_into_no_chunks_is_refused() {
    assert!(partition(range(1, 1000), 0).is_none());
}

#[test]
fn partition_of_the_widest_range() {
    let pieces = partition(range(0, 65535), 65535).expect("chunks");
    assert_eq!(pieces.len(), 65535);
    assert_eq!((pieces[0].low(), pieces[0].high()), (0, 1));
    assert_eq!((pieces[65534].low(), pieces[65534].high()), (65534, 65535));
}

#[test]
fn partition_covers_every_port_once() {
    for (low, high) in [(0u16, 1u16), (0, 10), (8000, 8010), (1, 1000), (65000, 65535), (3, 3)] {
        for count in [1u16, 2, 3, 5, 7, 50, 64, 1000] {
            let whole = range(low, high);
            let pieces = partition(whole, count).expect("count is positive");
            assert_eq!(pieces.len(), count as usize);
            let mut all: Vec<u16> = Vec::new();
            for piece in &pieces {
                all.extend(piece.ports());
            }
            assert_eq!(all, whole.ports(), "[{}, {}) by {}", low, high, count);
        }
    }
}
