use buzz::highwater::HighWaterMark;

#[test]
fn first_poll_raises_the_mark_and_lists_everything() {
    let mut mark = HighWaterMark::new();
    assert_eq!(mark.value, 0);
    let batch = mark.observe(&[5, 6]);
    assert_eq!(mark.value, 6);
    assert_eq!(batch.num_new, 2);
    assert_eq!(batch.fresh, vec![5, 6]);
}

#[test]
fn repeated_poll_counts_but_lists_nothing() {
    let mut mark = HighWaterMark::new();
    mark.observe(&[5, 6]);
    let batch = mark.observe(&[5, 6]);
    assert_eq!(batch.num_new, 2);
    assert!(batch.fresh.is_empty());
    assert_eq!(mark.value, 6);
}

#[test]
fn ids_at_or_below_the_mark_are_never_listed() {
    let mut mark = HighWaterMark { value: 6 };
    let batch = mark.observe(&[4, 7, 6, 9, 1]);
    assert_eq!(batch.num_new, 5);
    assert_eq!(batch.fresh, vec![7, 9]);
    assert!(batch.fresh.iter().all(|&uid| uid > 6));
    assert_eq!(mark.value, 9);
}

#[test]
fn stale_result_leaves_the_mark_alone() {
    let mut mark = HighWaterMark { value: 10 };
    let batch = mark.observe(&[3, 10, 2]);
    assert_eq!(batch.num_new, 3);
    assert!(batch.fresh.is_empty());
    assert_eq!(mark.value, 10);
}

#[test]
fn empty_result_changes_nothing() {
    let mut mark = HighWaterMark { value: 4 };
    let batch = mark.observe(&[]);
    assert_eq!(batch.num_new, 0);
    assert!(batch.fresh.is_empty());
    assert_eq!(mark.value, 4);
}

#[test]
fn mark_never_falls_over_many_polls() {
    let polls: Vec<Vec<u32>> = vec![
        vec![3, 1],
        vec![],
        vec![2],
        vec![8, 5, 8],
        vec![7],
        vec![u32::MAX],
        vec![1],
    ];
    let mut mark = HighWaterMark::new();
    let mut last = mark.value;
    for poll in &polls {
        let before = mark.value;
        let batch = mark.observe(poll);
        assert!(mark.value >= last);
        assert!(batch.fresh.iter().all(|&uid| uid > before));
        last = mark.value;
    }
    assert_eq!(mark.value, u32::MAX);
}

#[test]
fn fresh_ids_keep_the_order_of_the_search() {
    let mut mark = HighWaterMark { value: 2 };
    let batch = mark.observe(&[9, 3, 7, 3]);
    assert_eq!(batch.fresh, vec![9, 3, 7, 3]);
    assert_eq!(batch.num_new, 4);
}
