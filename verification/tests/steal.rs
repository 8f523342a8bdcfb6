use adaptive::steal::{count_bits, default_backoff, DemandChannel, VictimPort};
use adaptive::task::{run, DemandSource, Statistics};
use adaptive::Scheduling;

#[test]
fn demand_counting() {
    let mut ch = DemandChannel::new(4);
    assert_eq!(ch.worker_count(), 4);
    assert_eq!(ch.get_my_steal_count(0), 0);
    ch.request_steal(0, 1);
    assert_eq!(ch.get_my_steal_count(0), 1);
    ch.request_steal(0, 2);
    assert_eq!(ch.get_my_steal_count(0), 2);
    // a repeated request from the same worker adds nothing
    ch.request_steal(0, 2);
    assert_eq!(ch.get_my_steal_count(0), 2);
    ch.request_steal(0, 3);
    // capped at the number of other workers
    assert_eq!(ch.get_my_steal_count(0), 3);
    // the acknowledgement clears the whole word
    ch.reset_my_steal_count(0);
    assert_eq!(ch.get_my_steal_count(0), 0);
}

#[test]
fn withdraw_clears_only_own_bit() {
    let mut ch = DemandChannel::new(3);
    ch.request_steal(0, 1);
    ch.request_steal(0, 2);
    ch.withdraw_request(0, 1);
    assert_eq!(ch.get_my_steal_count(0), 1);
    ch.withdraw_request(0, 2);
    assert_eq!(ch.get_my_steal_count(0), 0);
}

#[test]
fn handshake_succeeds_after_acknowledgement() {
    let mut ch = DemandChannel::new(2);
    let mut stats = Statistics::new();
    ch.request_steal(0, 1);
    // the victim acknowledges between the posting and the wait
    ch.reset_my_steal_count(0);
    let r = ch.await_release(6, 0, 1, &mut stats);
    assert!(r.is_some());
    assert_eq!(stats.steal_success, 1);
    assert_eq!(stats.steal_fail, 0);
}

#[test]
fn handshake_times_out_without_victim() {
    let mut ch = DemandChannel::new(2);
    let mut stats = Statistics::new();
    // one call posts and waits; nobody can acknowledge in between
    let r = ch.steal(6, 0, 1, &mut stats);
    assert!(r.is_none());
    assert_eq!(stats.steal_fail, 1);
    assert_eq!(stats.steal_success, 0);
    // the timed-out request withdrew its own bit
    assert_eq!(ch.get_my_steal_count(0), 0);

    let r = ch.optimized_steal(0, 1, &mut stats);
    assert!(r.is_none());
    assert_eq!(stats.steal_fail, 2);
}

#[test]
fn backoff_budget_by_thread_count() {
    assert_eq!(default_backoff(2), 6);
    assert_eq!(default_backoff(8), 6);
    assert_eq!(default_backoff(9), 4);
    assert_eq!(default_backoff(12), 4);
    assert_eq!(default_backoff(13), 1);
    assert_eq!(default_backoff(64), 1);
}

#[test]
fn bit_counting() {
    assert_eq!(count_bits(0), 0);
    assert_eq!(count_bits(1), 1);
    assert_eq!(count_bits(0b1011), 3);
    assert_eq!(count_bits(u64::MAX), 64);
}

#[test]
fn host_sized_channel() {
    let ch = DemandChannel::for_host();
    let n = ch.worker_count();
    assert!(n >= 1 && n <= 64);
}

#[test]
fn victim_splits_once_per_rendezvous() {
    // two idle workers post against worker 0; its run loop splits once,
    // acknowledges, and then no further demand is seen
    let mut ch = DemandChannel::new(4);
    ch.request_steal(0, 1);
    ch.request_steal(0, 2);

    let mut times: Vec<u64> = Vec::new();
    for _ in 0..8 {
        times.push(rand::random::<u64>() % 1000);
    }
    let procs: Vec<u64> = vec![0, 0, 0];
    let expected = adaptive::scheduling::brute_force(&times, procs.clone());

    let s = Scheduling::new(&times, &procs);
    let mut port = VictimPort::new(ch, 0);
    let mut stats = Statistics::new();
    let done = run(s, &mut port, &mut stats);
    assert_eq!(done.best, expected);
    assert_eq!(stats.successful_steals, 1);
    assert_eq!(stats.total_steal_counter, 2);
    assert_eq!(port.channel.get_my_steal_count(0), 0);

    // each waiting stealer now finds the word clear: every success
    // corresponds to the one split that answered it
    let r1 = port.channel.await_release(6, 0, 1, &mut stats);
    let r2 = port.channel.await_release(6, 0, 2, &mut stats);
    assert!(r1.is_some() && r2.is_some());
    assert_eq!(stats.steal_success, 2);
    assert_eq!(stats.steal_fail, 0);
}

#[test]
fn schedule_polls_in_order() {
    let mut d = adaptive::task::DemandSchedule::new(vec![3, 0, 2]);
    assert_eq!(d.poll(), 3);
    assert_eq!(d.poll(), 0);
    assert_eq!(d.poll(), 2);
    assert_eq!(d.poll(), 0);
    assert_eq!(d.poll(), 0);
}

#[test]
fn single_worker_sees_no_demand() {
    // with one worker there is nobody to post a request: its run loop
    // polls zero forever and never splits
    let ch = DemandChannel::new(1);
    let mut times: Vec<u64> = Vec::new();
    for _ in 0..7 {
        times.push(rand::random::<u64>() % 100);
    }
    let procs: Vec<u64> = vec![0, 0];
    let expected = adaptive::scheduling::brute_force(&times, procs.clone());
    let s = Scheduling::new(&times, &procs);
    let mut port = VictimPort::new(ch, 0);
    let mut stats = Statistics::new();
    let done = run(s, &mut port, &mut stats);
    assert_eq!(done.best, expected);
    assert_eq!(stats.successful_steals, 0);
}
