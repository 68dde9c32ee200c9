use hashassin_core::partition::{partition, slice_for, WorkSlice};

fn lengths(total: usize, workers: usize) -> Vec<usize> {
    partition(total, workers).iter().map(|s| s.len()).collect()
}

#[test]
fn ten_items_three_workers() {
    let slices = partition(10, 3);
    assert_eq!(
        slices,
        vec![
            WorkSlice { start: 0, end: 4 },
            WorkSlice { start: 4, end: 7 },
            WorkSlice { start: 7, end: 10 },
        ]
    );
}

#[test]
fn first_remainder_slices_get_one_more() {
    assert_eq!(lengths(11, 4), vec![3, 3, 3, 2]);
    assert_eq!(lengths(7, 5), vec![2, 2, 1, 1, 1]);
    assert_eq!(lengths(12, 4), vec![3, 3, 3, 3]);
}

#[test]
fn more_workers_than_items_leaves_empty_slices() {
    let slices = partition(2, 5);
    assert_eq!(slices.len(), 5);
    assert_eq!(lengths(2, 5), vec![1, 1, 0, 0, 0]);
    assert!(slices[2].is_empty());
    assert!(slices[4].is_empty());
    assert_eq!(slices[4], WorkSlice { start: 2, end: 2 });
}

#[test]
fn nothing_to_share_out() {
    let slices = partition(0, 3);
    assert_eq!(slices.len(), 3);
    for s in &slices {
        assert_eq!(*s, WorkSlice { start: 0, end: 0 });
    }
}

#[test]
fn one_worker_owns_everything() {
    assert_eq!(partition(9, 1), vec![WorkSlice { start: 0, end: 9 }]);
}

#[test]
fn slices_are_contiguous_cover_the_range_and_are_balanced() {
    for total in 0..60usize {
        for workers in 1..12usize {
            let slices = partition(total, workers);
            assert_eq!(slices.len(), workers);
            assert_eq!(slices[0].start, 0);
            assert_eq!(slices[workers - 1].end, total);
            let mut sum = 0;
            for (i, s) in slices.iter().enumerate() {
                assert!(s.start <= s.end);
                if i + 1 < workers {
                    assert_eq!(s.end, slices[i + 1].start);
                }
                let expected = total / workers + if i < total % workers { 1 } else { 0 };
                assert_eq!(s.len(), expected);
                sum += s.len();
                assert_eq!(*s, slice_for(total, workers, i));
            }
            assert_eq!(sum, total);
            let longest = slices.iter().map(|s| s.len()).max().unwrap();
            let shortest = slices.iter().map(|s| s.len()).min().unwrap();
            assert!(longest - shortest <= 1);
        }
    }
}

#[test]
fn partition_is_deterministic() {
    assert_eq!(partition(1000, 7), partition(1000, 7));
}

#[test]
fn large_counts_do_not_overflow() {
    let slices = partition(usize::MAX, 3);
    assert_eq!(slices[0].start, 0);
    assert_eq!(slices[2].end, usize::MAX);
    assert_eq!(slices[0].len(), usize::MAX / 3);
    let last = slice_for(usize::MAX, usize::MAX, usize::MAX - 1);
    assert_eq!(last, WorkSlice { start: usize::MAX - 1, end: usize::MAX });
}
