use adaptive::scheduling::{
    branch_and_bound, branch_and_bound_par, brute_force, brute_force_par, brute_force_rec,
    brute_force_rec_par_split, _compute_lower_bound,
};
use adaptive::task::{run, DemandSchedule, Statistics};
use adaptive::{Benchable, BruteForce, BruteForcePar, Scheduling};

#[test]
fn test_scheduling() {
    let mut times: Vec<u64> = Vec::new();
    for _ in 0..16 {
        times.push(rand::random::<u64>() % 10_000);
    }
    let procs: Vec<u64> = vec![0, 0, 0];

    let mut s = Scheduling::new(&times, &procs);
    let my_result = s.start();
    let mut b = BruteForcePar::new(times.clone(), procs.clone());
    let other_result = b.start();
    assert_eq!(my_result, other_result);
}

#[test]
fn brute_force_small_exact() {
    // two tasks on two processors: put them apart, makespan 5
    let times: Vec<u64> = vec![5, 3];
    let procs: Vec<u64> = vec![0, 0];
    assert_eq!(brute_force(&times, procs.clone()), 5);

    // forced onto one processor
    let times: Vec<u64> = vec![4];
    let procs: Vec<u64> = vec![7, 9];
    assert_eq!(brute_force(&times, procs), 11);

    // no tasks left: the current makespan
    let times: Vec<u64> = vec![];
    let procs: Vec<u64> = vec![2, 8, 5];
    assert_eq!(brute_force(&times, procs), 8);
}

#[test]
fn brute_force_variants_agree() {
    let mut times: Vec<u64> = Vec::new();
    for _ in 0..10 {
        times.push(rand::random::<u64>() % 1000);
    }
    let procs: Vec<u64> = vec![0, 0, 0];
    let seq = brute_force(&times, procs.clone());
    for threads in [1usize, 3, 8] {
        assert_eq!(brute_force_par(&times, procs.clone(), threads), seq);
    }
    let two: Vec<u64> = vec![0, 0];
    let seq2 = brute_force(&times, two.clone());
    assert_eq!(brute_force_rec_par_split(two, &times), seq2);
}

#[test]
fn brute_force_rec_restores_loads() {
    let times: Vec<u64> = vec![9, 1, 4];
    let mut procs: Vec<u64> = vec![2, 3];
    brute_force_rec(&mut procs, &times);
    assert_eq!(procs, vec![2, 3]);
}

#[test]
fn branch_and_bound_matches_brute_force() {
    let mut times: Vec<u64> = Vec::new();
    for _ in 0..9 {
        times.push(rand::random::<u64>() % 500);
    }
    let exhaustive = brute_force(&times, vec![0, 0, 0]);
    assert_eq!(branch_and_bound(&times, u64::MAX), exhaustive);
    assert_eq!(branch_and_bound_par(&times, u64::MAX), exhaustive);
    // an unbeatable incoming bound is returned unchanged
    assert_eq!(branch_and_bound(&times, 0), 0);
    assert_eq!(branch_and_bound_par(&times, 0), 0);
}

#[test]
fn lower_bound_exact() {
    let times: Vec<u64> = vec![5, 10, 3];
    assert_eq!(_compute_lower_bound(&times, 18, 2), 10);
    // the even spread dominates when every task is short
    let times: Vec<u64> = vec![4, 4, 4, 4];
    assert_eq!(_compute_lower_bound(&times, 16, 2), 8);
}

#[test]
fn adaptive_run_agrees_with_sequential_scan() {
    // fourteen tasks on three processors, driven with steady demand
    let mut times: Vec<u64> = Vec::new();
    for _ in 0..14 {
        times.push(rand::random::<u64>() % 10_000);
    }
    let procs: Vec<u64> = vec![0, 0, 0];
    let expected = brute_force(&times, procs.clone());

    let s = Scheduling::new(&times, &procs);
    let mut demand = DemandSchedule::new(vec![2, 1, 2, 1]);
    let mut stats = Statistics::new();
    let done = run(s, &mut demand, &mut stats);
    assert_eq!(done.best, expected);
    assert!(stats.successful_steals > 0);
}

#[test]
fn degenerate_input_never_splits() {
    // a single task on two processors: its duration is the answer and
    // no split happens even under heavy demand
    let times: Vec<u64> = vec![1234];
    let procs: Vec<u64> = vec![0, 0];
    let s = Scheduling::new(&times, &procs);
    let mut demand = DemandSchedule::new(vec![1, 1, 1, 1, 1]);
    let mut stats = Statistics::new();
    let done = run(s, &mut demand, &mut stats);
    assert_eq!(done.best, 1234);
    assert_eq!(stats.successful_steals, 0);
}

#[test]
fn quiet_run_never_splits() {
    // with no demand the adaptive run is the sequential run
    let mut times: Vec<u64> = Vec::new();
    for _ in 0..8 {
        times.push(rand::random::<u64>() % 1000);
    }
    let procs: Vec<u64> = vec![0, 0, 0];
    let expected = brute_force(&times, procs.clone());
    let s = Scheduling::new(&times, &procs);
    let mut demand = DemandSchedule::quiet();
    let mut stats = Statistics::new();
    let done = run(s, &mut demand, &mut stats);
    assert_eq!(done.best, expected);
    assert_eq!(stats.successful_steals, 0);
    assert!(stats.steps > 0);
}

#[test]
fn work_conserved_across_demand_patterns() {
    let mut times: Vec<u64> = Vec::new();
    for _ in 0..10 {
        times.push(rand::random::<u64>() % 2000);
    }
    let procs: Vec<u64> = vec![0, 0, 0];
    let mut results: Vec<u64> = Vec::new();
    let patterns: Vec<Vec<usize>> = vec![
        vec![],
        vec![1],
        vec![0, 0, 2],
        vec![5, 5, 5, 5],
        vec![1, 0, 1, 0, 1],
    ];
    for p in patterns {
        let s = Scheduling::new(&times, &procs);
        let mut demand = DemandSchedule::new(p);
        let mut stats = Statistics::new();
        let done = run(s, &mut demand, &mut stats);
        results.push(done.best);
    }
    for r in &results {
        assert_eq!(*r, results[0]);
    }
}

#[test]
fn benchables_reset_and_rerun_identically() {
    let mut times: Vec<u64> = Vec::new();
    for _ in 0..8 {
        times.push(rand::random::<u64>() % 1000);
    }
    let procs: Vec<u64> = vec![0, 0, 0];

    let mut s = Scheduling::new(&times, &procs);
    let first = s.start();
    let second = s.start();
    assert_eq!(first, second);

    let mut b = BruteForce::new(times.clone(), procs.clone());
    assert_eq!(b.start(), first);
    assert_eq!(b.start(), first);

    let mut p = BruteForcePar::new(times.clone(), procs.clone());
    assert_eq!(p.start(), first);
    assert_eq!(p.start(), first);

    assert_eq!(s.name(), "Adaptive");
    assert_eq!(b.name(), "BruteForce-Sequential");
    assert_eq!(p.name(), "BruteForce");
}

#[test]
fn verify_accepts_fresh_node() {
    let times: Vec<u64> = vec![3, 1, 4];
    let procs: Vec<u64> = vec![0, 0];
    let s = Scheduling::new(&times, &procs);
    s.verify();
}
