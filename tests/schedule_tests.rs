use validator::schedule::{byte_count, chunk_size, schedule, sub_rounds, SUB_ROUND_BYTES};

#[test]
fn byte_count_grows_every_four_rounds() {
    assert_eq!(byte_count(0), 1);
    assert_eq!(byte_count(3), 1);
    assert_eq!(byte_count(4), 2);
    assert_eq!(byte_count(401), 101);
}

#[test]
fn odd_peer_count_below_byte_count_gives_empty_chunks() {
    // round 4 with three peers: two bytes, odd count, chunk width zero
    assert_eq!(byte_count(4), 2);
    assert_eq!(chunk_size(3, 2), Some(0));
    let plan = schedule(3, 4);
    assert_eq!(plan.len(), 3);
    for (i, a) in plan.iter().enumerate() {
        assert_eq!(a.index, i);
        assert_eq!(a.start, 0);
        assert_eq!(a.end, 0);
    }
}

#[test]
fn no_peer_means_no_division_and_no_chunk() {
    assert_eq!(chunk_size(0, 5), None);
    assert!(schedule(0, 100).is_empty());
}

#[test]
fn even_peer_count_gets_one_extra_byte() {
    // round 4: two bytes over two peers, width 2/2 + 1 = 2
    assert_eq!(chunk_size(2, 2), Some(2));
    let plan = schedule(2, 4);
    assert_eq!((plan[0].start, plan[0].end), (0, 2));
    assert_eq!((plan[1].start, plan[1].end), (2, 4));
}

#[test]
fn chunks_are_disjoint_and_ordered() {
    for n in 1..12usize {
        for step in 0..80u64 {
            let plan = schedule(n, step);
            assert_eq!(plan.len(), n);
            for i in 0..n {
                assert_eq!(plan[i].index, i);
                assert!(plan[i].start <= plan[i].end);
                if i + 1 < n {
                    assert!(plan[i].end <= plan[i + 1].start);
                }
            }
            let b = byte_count(step) as usize;
            if n % 2 == 0 || n <= b {
                assert!(chunk_size(n, b as u64).unwrap() >= 1);
            }
        }
    }
}

#[test]
fn sub_rounds_cover_the_chunk() {
    assert!(sub_rounds(7, 7).is_empty());
    assert_eq!(sub_rounds(3, 10), vec![(3, 10)]);
    let s = SUB_ROUND_BYTES as u64;
    assert_eq!(sub_rounds(0, 40000), vec![(0, s), (s, 2 * s), (2 * s, 40000)]);
    assert_eq!(sub_rounds(5, 5 + 2 * s), vec![(5, 5 + s), (5 + s, 5 + 2 * s)]);
}
