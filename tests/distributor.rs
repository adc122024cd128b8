use crossbeam_deque::{Injector, Worker};
use veneer::distributor::{find_task_once, next_probe, settle, Probe, ProbeStep, Stolen};

#[test]
fn local_queue_first() {
    let local = Worker::new_fifo();
    let global = Injector::new();
    local.push(1u32);
    global.push(2u32);
    assert_eq!(find_task_once(&local, &global, &[]), Stolen::Success(1));
}

#[test]
fn shared_queue_next() {
    let local: Worker<u32> = Worker::new_fifo();
    let global = Injector::new();
    global.push(5u32);
    global.push(6u32);
    assert_eq!(find_task_once(&local, &global, &[]), Stolen::Success(5));
    assert_eq!(find_task_once(&local, &global, &[]), Stolen::Success(6));
    assert_eq!(find_task_once(&local, &global, &[]), Stolen::Empty);
}

#[test]
fn peers_last() {
    let local: Worker<u32> = Worker::new_fifo();
    let global: Injector<u32> = Injector::new();
    let peer = Worker::new_fifo();
    peer.push(9u32);
    let stealers = vec![peer.stealer()];
    assert_eq!(find_task_once(&local, &global, &stealers), Stolen::Success(9));
    assert_eq!(find_task_once(&local, &global, &stealers), Stolen::Empty);
}

#[test]
fn all_queues_empty_with_peers() {
    let local: Worker<u32> = Worker::new_fifo();
    let global: Injector<u32> = Injector::new();
    let stealers = vec![local.stealer()];
    assert_eq!(find_task_once(&local, &global, &stealers), Stolen::Empty);
}

#[test]
fn probe_steps() {
    assert_eq!(next_probe(Probe::Local, Stolen::Success(1u8), 2), ProbeStep::Finish(Stolen::Success(1)));
    assert_eq!(next_probe(Probe::<u8>::Local, Stolen::Empty, 2), ProbeStep::Ask(Probe::Shared));
    assert_eq!(next_probe(Probe::Shared, Stolen::Success(4u8), 2), ProbeStep::Finish(Stolen::Success(4)));
    assert_eq!(next_probe(Probe::<u8>::Shared, Stolen::Retry, 2), ProbeStep::Ask(Probe::Peer(0, Stolen::Retry)));
    assert_eq!(next_probe(Probe::<u8>::Shared, Stolen::Retry, 0), ProbeStep::Finish(Stolen::Retry));
    assert_eq!(next_probe(Probe::<u8>::Shared, Stolen::Empty, 0), ProbeStep::Finish(Stolen::Empty));
    assert_eq!(
        next_probe(Probe::<u8>::Peer(0, Stolen::Empty), Stolen::Retry, 2),
        ProbeStep::Ask(Probe::Peer(1, Stolen::Retry))
    );
    assert_eq!(next_probe(Probe::<u8>::Peer(1, Stolen::Retry), Stolen::Empty, 2), ProbeStep::Finish(Stolen::Retry));
    assert_eq!(next_probe(Probe::<u8>::Peer(1, Stolen::Empty), Stolen::Empty, 2), ProbeStep::Finish(Stolen::Empty));
    assert_eq!(next_probe(Probe::Peer(1, Stolen::Retry), Stolen::Success(7u8), 2), ProbeStep::Finish(Stolen::Success(7)));
}

#[test]
fn first_peer_with_work_wins() {
    let local: Worker<u32> = Worker::new_fifo();
    let global: Injector<u32> = Injector::new();
    let a: Worker<u32> = Worker::new_fifo();
    let b = Worker::new_fifo();
    let c = Worker::new_fifo();
    b.push(20u32);
    c.push(30u32);
    let stealers = vec![a.stealer(), b.stealer(), c.stealer()];
    assert_eq!(find_task_once(&local, &global, &stealers), Stolen::Success(20));
    assert_eq!(find_task_once(&local, &global, &stealers), Stolen::Success(30));
    assert_eq!(find_task_once(&local, &global, &stealers), Stolen::Empty);
}

#[test]
fn settle_outcomes() {
    assert_eq!(settle(Stolen::Empty, Stolen::Success(3)), Stolen::Success(3));
    assert_eq!(settle(Stolen::Retry, Stolen::Success(3)), Stolen::Success(3));
    assert_eq!(settle(Stolen::Retry, Stolen::<u8>::Empty), Stolen::Retry);
    assert_eq!(settle(Stolen::Empty, Stolen::<u8>::Retry), Stolen::Retry);
    assert_eq!(settle(Stolen::<u8>::Empty, Stolen::Empty), Stolen::Empty);
}

