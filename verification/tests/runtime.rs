use adaptive::concat::Concatenator;
use adaptive::task::{reset_statistics, run, DemandSchedule, Statistics};

#[test]
fn sibling_fuse_order_two_bytes() {
    // fuse appends "L" then "R": the result is "LR" whatever the demand
    let data: Vec<u8> = vec![b'L', b'R'];
    let patterns: Vec<Vec<usize>> = vec![vec![], vec![1], vec![7], vec![1, 1, 1]];
    for p in patterns {
        let t = Concatenator::new(data.clone());
        let mut demand = DemandSchedule::new(p);
        let mut stats = Statistics::new();
        let done = run(t, &mut demand, &mut stats);
        let bytes = done.into_bytes();
        assert_eq!(bytes, vec![b'L', b'R']);
    }
}

#[test]
fn concatenation_keeps_order_under_demand() {
    let data: Vec<u8> = b"abcdefghij".to_vec();
    let patterns: Vec<Vec<usize>> = vec![
        vec![],
        vec![1],
        vec![3],
        vec![9, 9, 9],
        vec![0, 2, 0, 2, 0, 2],
        vec![1, 1, 1, 1, 1, 1, 1, 1, 1, 1],
    ];
    for p in patterns {
        let t = Concatenator::new(data.clone());
        let mut demand = DemandSchedule::new(p);
        let mut stats = Statistics::new();
        let done = run(t, &mut demand, &mut stats);
        assert_eq!(done.into_bytes(), data);
    }
}

#[test]
fn concatenation_splits_under_demand() {
    let data: Vec<u8> = b"abcdefgh".to_vec();
    let t = Concatenator::new(data.clone());
    let mut demand = DemandSchedule::new(vec![2]);
    let mut stats = Statistics::new();
    let done = run(t, &mut demand, &mut stats);
    assert_eq!(done.into_bytes(), data);
    assert_eq!(stats.successful_steals, 1);
    assert_eq!(stats.total_steal_counter, 2);
}

#[test]
fn empty_input_is_already_finished() {
    let t = Concatenator::new(Vec::new());
    let mut demand = DemandSchedule::new(vec![4, 4]);
    let mut stats = Statistics::new();
    let done = run(t, &mut demand, &mut stats);
    assert_eq!(done.into_bytes(), Vec::<u8>::new());
    assert_eq!(stats.steps, 0);
    assert_eq!(stats.successful_steals, 0);
}

#[test]
fn statistics_reset_clears_everything() {
    let data: Vec<u8> = b"xyz".to_vec();
    let t = Concatenator::new(data);
    let mut demand = DemandSchedule::new(vec![1]);
    let mut stats = Statistics::new();
    let _ = run(t, &mut demand, &mut stats);
    assert!(stats.steps > 0);
    reset_statistics(&mut stats);
    assert_eq!(stats.steps, 0);
    assert_eq!(stats.successful_steals, 0);
    assert_eq!(stats.total_steal_counter, 0);
    assert_eq!(stats.steal_success, 0);
    assert_eq!(stats.steal_fail, 0);
}

#[test]
fn split_respects_demand_bound() {
    // demand d answers with at most d siblings; a demand of one on a
    // long segment still leaves everything covered exactly once
    let data: Vec<u8> = b"0123456789abcdef".to_vec();
    let t = Concatenator::new(data.clone());
    let mut demand = DemandSchedule::new(vec![1, 1, 1, 1]);
    let mut stats = Statistics::new();
    let done = run(t, &mut demand, &mut stats);
    assert_eq!(done.into_bytes(), data);
    assert!(stats.successful_steals >= 1);
    assert!(stats.total_steal_counter <= 4);
}
