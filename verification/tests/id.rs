use sinq::id::next;

#[test]
fn next_counts_up_from_the_counter() {
    let mut counter = 0u64;
    assert_eq!(next(&mut counter), 0);
    assert_eq!(next(&mut counter), 1);
    assert_eq!(next(&mut counter), 2);
    assert_eq!(counter, 3);
}

#[test]
fn next_hands_out_distinct_ids() {
    let mut counter = 1000u64;
    let mut ids = Vec::new();
    for _ in 0..100 {
        ids.push(next(&mut counter));
    }
    for i in 0..ids.len() {
        for j in 0..i {
            assert_ne!(ids[i], ids[j]);
        }
        assert_eq!(ids[i], 1000 + i as u64);
    }
}

#[test]
fn next_goes_round_after_the_last_id() {
    let mut counter = u64::MAX - 1;
    assert_eq!(next(&mut counter), u64::MAX - 1);
    assert_eq!(next(&mut counter), u64::MAX);
    assert_eq!(counter, 0);
    assert_eq!(next(&mut counter), 0);
}
