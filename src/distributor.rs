use vstd::prelude::*;
use crossbeam_deque::{Injector, Steal, Stealer, Worker};

verus! {

#[verifier::external_type_specification]
#[verifier::external_body]
#[verifier::reject_recursive_types(T)]
pub struct ExWorker<T>(Worker<T>);

#[verifier::external_type_specification]
#[verifier::external_body]
#[verifier::reject_recursive_types(T)]
pub struct ExStealer<T>(Stealer<T>);

#[verifier::external_type_specification]
#[verifier::external_body]
#[verifier::reject_recursive_types(T)]
pub struct ExInjector<T>(Injector<T>);

/// The outcome of one attempt to take pending work.
#[derive(Debug, PartialEq, Eq)]
pub enum Stolen<T> {
    /// Every queue looked at was empty.
    Empty,
    /// A task was taken.
    Success(T),
    /// A queue was contended; the attempt should be made again.
    Retry,
}

/// Relies on `crossbeam_deque::Worker::pop`: the next task of the worker's
/// own queue, if there is one.
#[verifier::external_body]
fn pop_local<T>(local: &Worker<T>) -> (r: Option<T>) {
    local.pop()
}

/// Relies on `crossbeam_deque::Injector::steal_batch_and_pop`: moves a batch
/// of shared tasks into `local` and takes one of them.
#[verifier::external_body]
fn steal_shared<T>(global: &Injector<T>, local: &Worker<T>) -> (r: Stolen<T>) {
    match global.steal_batch_and_pop(local) {
        Steal::Empty => Stolen::Empty,
        Steal::Success(t) => Stolen::Success(t),
        Steal::Retry => Stolen::Retry,
    }
}

/// Relies on `crossbeam_deque::Stealer::steal`: takes one task from another
/// worker's queue.
#[verifier::external_body]
fn steal_peer<T>(peer: &Stealer<T>) -> (r: Stolen<T>) {
    match peer.steal() {
        Steal::Empty => Stolen::Empty,
        Steal::Success(t) => Stolen::Success(t),
        Steal::Retry => Stolen::Retry,
    }
}

/// The queue one attempt to take work asks next.
#[derive(Debug, PartialEq, Eq)]
pub enum Probe<T> {
    /// The worker's own queue.
    Local,
    /// The shared queue.
    Shared,
    /// Peer `i`; the outcome of the queues asked before it, which brought no
    /// task, is carried along.
    Peer(usize, Stolen<T>),
}

/// Where an attempt goes after one queue has answered.
#[derive(Debug, PartialEq, Eq)]
pub enum ProbeStep<T> {
    /// Ask this queue next.
    Ask(Probe<T>),
    /// The attempt is over, with this outcome.
    Finish(Stolen<T>),
}

/// A probe that can be asked with `peers` other workers.
pub open spec fn probe_ok<T>(p: Probe<T>, peers: nat) -> bool {
    match p {
        Probe::Peer(i, acc) => i < peers && !(acc is Success),
        _ => true,
    }
}

/// How many queues are left to ask, at most, from probe `p`.
pub open spec fn probe_rank<T>(p: Probe<T>, peers: nat) -> int {
    match p {
        Probe::Local => peers as int + 2,
        Probe::Shared => peers as int + 1,
        Probe::Peer(i, _) => peers as int - i as int,
    }
}

/// What `settle` gives.
pub open spec fn settle_spec<T>(acc: Stolen<T>, next: Stolen<T>) -> Stolen<T> {
    match next {
        Stolen::Success(t) => Stolen::Success(t),
        _ => if acc is Retry || next is Retry {
            Stolen::Retry
        } else {
            Stolen::Empty
        },
    }
}

/// The step after `probe` answered `outcome`, with `peers` other workers.
pub open spec fn probe_step<T>(probe: Probe<T>, outcome: Stolen<T>, peers: nat) -> ProbeStep<T> {
    match outcome {
        Stolen::Success(t) => ProbeStep::Finish(Stolen::Success(t)),
        _ => match probe {
            Probe::Local => ProbeStep::Ask(Probe::Shared),
            Probe::Shared => if peers == 0 {
                ProbeStep::Finish(outcome)
            } else {
                ProbeStep::Ask(Probe::Peer(0, outcome))
            },
            Probe::Peer(i, acc) => if i + 1 < peers {
                ProbeStep::Ask(Probe::Peer((i + 1) as usize, settle_spec(acc, outcome)))
            } else {
                ProbeStep::Finish(settle_spec(acc, outcome))
            },
        },
    }
}

/// Decides after one queue answered: a task ends the attempt; after the own
/// queue the shared one is asked; after the shared queue the peers in order,
/// carrying its outcome; each peer's outcome is joined to the carried one by
/// `settle`, and after the last peer the joined outcome ends the attempt.
pub fn next_probe<T>(probe: Probe<T>, outcome: Stolen<T>, peers: usize) -> (r: ProbeStep<T>)
    requires
        probe_ok(probe, peers as nat),
    ensures
        r == probe_step(probe, outcome, peers as nat),
        r matches ProbeStep::Ask(p) ==> probe_ok(p, peers as nat) && probe_rank(p, peers as nat)
            < probe_rank(probe, peers as nat),
        r matches ProbeStep::Finish(o) ==> !(outcome is Success) ==> !(o is Success),
{
    match outcome {
        Stolen::Success(t) => ProbeStep::Finish(Stolen::Success(t)),
        _ => match probe {
            Probe::Local => ProbeStep::Ask(Probe::Shared),
            Probe::Shared => if peers == 0 {
                ProbeStep::Finish(outcome)
            } else {
                ProbeStep::Ask(Probe::Peer(0, outcome))
            },
            Probe::Peer(i, acc) => {
                let joined = settle(acc, outcome);
                if i + 1 < peers {
                    ProbeStep::Ask(Probe::Peer(i + 1, joined))
                } else {
                    ProbeStep::Finish(joined)
                }
            },
        },
    }
}

/// One attempt to take pending work: the worker's own queue first, then a
/// batch from the shared queue, then one task from each peer in turn, each
/// step decided by `next_probe`. The peers are asked only when the shared
/// queue gave nothing; when a queue was contended and none gives a task, the
/// attempt reports `Retry`.
pub fn find_task_once<T>(local: &Worker<T>, global: &Injector<T>, stealers: &[Stealer<T>]) -> (r:
    Stolen<T>)
{
    let peers = stealers.len();
    let mut probe: Probe<T> = Probe::Local;
    loop
        invariant
            peers == stealers@.len(),
            probe_ok(probe, peers as nat),
        decreases probe_rank(probe, peers as nat),
    {
        let outcome = match &probe {
            Probe::Local => match pop_local(local) {
                Some(t) => Stolen::Success(t),
                None => Stolen::Empty,
            },
            Probe::Shared => steal_shared(global, local),
            Probe::Peer(i, _) => steal_peer(&stealers[*i]),
        };
        match next_probe(probe, outcome, peers) {
            ProbeStep::Ask(p) => {
                probe = p;
            },
            ProbeStep::Finish(r) => {
                return r;
            },
        }
    }
}

/// Joins an outcome that brought no task with the one of the next queue
/// asked: that queue's task if there is one, else `Retry` if either was
/// contended, else `Empty`.
pub fn settle<T>(shared: Stolen<T>, peers: Stolen<T>) -> (r: Stolen<T>)
    requires
        !(shared is Success),
    ensures
        r == settle_spec(shared, peers),
{
    match peers {
        Stolen::Success(t) => Stolen::Success(t),
        Stolen::Retry => Stolen::Retry,
        Stolen::Empty => match shared {
            Stolen::Retry => Stolen::Retry,
            _ => Stolen::Empty,
        },
    }
}

} // verus!
