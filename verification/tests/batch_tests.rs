use feedforward::batch::partition;

#[test]
fn partition_of_ten_samples_for_four_workers() {
    assert_eq!(partition(10, 4), vec![(0, 3), (3, 6), (6, 9), (9, 10)]);
}

#[test]
fn partition_may_need_fewer_chunks_than_workers() {
    assert_eq!(partition(5, 4), vec![(0, 2), (2, 4), (4, 5)]);
    assert_eq!(partition(9, 6), vec![(0, 2), (2, 4), (4, 6), (6, 8), (8, 9)]);
}

#[test]
fn partition_clamps_the_worker_count() {
    assert_eq!(partition(4, 0), vec![(0, 4)]);
    assert_eq!(partition(4, 1), vec![(0, 4)]);
    assert_eq!(partition(3, 8), vec![(0, 1), (1, 2), (2, 3)]);
    assert_eq!(partition(1, usize::MAX), vec![(0, 1)]);
}

#[test]
fn partition_of_an_empty_batch_is_empty() {
    assert_eq!(partition(0, 0), vec![]);
    assert_eq!(partition(0, 4), vec![]);
}

#[test]
fn partition_of_a_huge_batch_does_not_overflow() {
    let plan = partition(usize::MAX, 2);
    let half = usize::MAX / 2 + 1;
    assert_eq!(plan, vec![(0, half), (half, usize::MAX)]);
    assert_eq!(partition(usize::MAX, 1), vec![(0, usize::MAX)]);
}

#[test]
fn partition_covers_every_sample_exactly_once() {
    for batch in 0..60usize {
        for workers in 0..70usize {
            let plan = partition(batch, workers);
            let mut seen = vec![0usize; batch];
            for &(start, end) in &plan {
                assert!(start < end && end <= batch);
                for s in start..end {
                    seen[s] += 1;
                }
            }
            assert!(seen.iter().all(|&n| n == 1), "batch {} workers {}", batch, workers);
            let effective = workers.max(1).min(batch);
            assert!(plan.len() <= effective);
            if batch > 0 {
                let chunk = (batch + effective - 1) / effective;
                assert_eq!(plan.len(), (batch + chunk - 1) / chunk);
                for (t, &(start, end)) in plan.iter().enumerate() {
                    assert_eq!(start, t * chunk);
                    assert_eq!(end, ((t + 1) * chunk).min(batch));
                }
            }
        }
    }
}
