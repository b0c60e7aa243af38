use dozer::epoch::Epoch;
use dozer::errors::ExecutionError;
use dozer::executor::ExecutorOperation;
use dozer::node::NodeHandle;
use dozer::receiver_loop::{ReceiverAction, ReceiverLoop};
use dozer::types::{Field, Operation, Record};

fn handle(id: &str) -> NodeHandle {
    NodeHandle::new(None, id.to_string())
}

fn row(id: i64) -> Record {
    Record::new(None, vec![Field::Int(id)], None)
}

fn commit(id: u64, source: &str, seq: u64) -> ExecutorOperation {
    ExecutorOperation::Commit { epoch: Epoch::new(id, vec![(handle(source), (0, seq))]) }
}

#[test]
fn commit_barrier() {
    // two ports, fed by two sources that emit at different rates
    let mut receiver = ReceiverLoop::new(2, 0);
    assert_eq!(
        receiver.on_message(0, ExecutorOperation::Insert { new: row(1) }),
        Ok(ReceiverAction::Process { port_index: 0, op: Operation::Insert { new: row(1) } })
    );
    // the fast port delivers the marker: the node waits and does not poll it
    assert_eq!(receiver.on_message(0, commit(0, "fast", 100)), Ok(ReceiverAction::Wait));
    assert!(!receiver.is_pollable(0));
    assert!(receiver.is_pollable(1));
    assert_eq!(receiver.next_port(0), Some(1));
    assert_eq!(receiver.next_port(1), Some(1));
    // the slow port still delivers rows of the epoch
    assert_eq!(
        receiver.on_message(1, ExecutorOperation::Delete { old: row(2) }),
        Ok(ReceiverAction::Process { port_index: 1, op: Operation::Delete { old: row(2) } })
    );
    assert_eq!(
        receiver.on_message(1, ExecutorOperation::Update { old: row(2), new: row(3) }),
        Ok(ReceiverAction::Process { port_index: 1, op: Operation::Update { old: row(2), new: row(3) } })
    );
    // only with its marker does the node commit, once, with the positions of both
    assert_eq!(
        receiver.on_message(1, commit(0, "slow", 7)),
        Ok(ReceiverAction::Commit {
            epoch: Epoch::new(0, vec![(handle("fast"), (0, 100)), (handle("slow"), (0, 7))])
        })
    );
    // the next epoch begins: both ports are polled again
    assert!(receiver.is_pollable(0) && receiver.is_pollable(1));
    assert_eq!(receiver.on_message(1, commit(1, "slow", 9)), Ok(ReceiverAction::Wait));
    assert_eq!(
        receiver.on_message(0, commit(1, "fast", 200)),
        Ok(ReceiverAction::Commit {
            epoch: Epoch::new(1, vec![(handle("slow"), (0, 9)), (handle("fast"), (0, 200))])
        })
    );
}

#[test]
fn marker_of_another_epoch_is_an_error() {
    let mut receiver = ReceiverLoop::new(2, 5);
    assert_eq!(receiver.awaited_epoch(), 5);
    assert_eq!(receiver.port_count(), 2);
    assert_eq!(
        receiver.on_message(0, commit(6, "s", 1)),
        Err(ExecutionError::InvalidEpoch { expected: 5, received: 6 })
    );
    // nothing has changed
    assert!(receiver.is_pollable(0));
    assert_eq!(receiver.on_message(0, commit(5, "s", 1)), Ok(ReceiverAction::Wait));
}

#[test]
fn node_ends_when_all_ports_are_terminated() {
    let mut receiver = ReceiverLoop::new(3, 0);
    assert_eq!(receiver.on_message(1, ExecutorOperation::Terminate), Ok(ReceiverAction::Wait));
    assert!(!receiver.is_pollable(1));
    assert_eq!(receiver.next_port(0), Some(2));
    assert_eq!(receiver.next_port(2), Some(0));
    assert_eq!(receiver.on_message(0, ExecutorOperation::Terminate), Ok(ReceiverAction::Wait));
    assert_eq!(receiver.next_port(2), Some(2));
    assert_eq!(receiver.on_message(2, ExecutorOperation::Terminate), Ok(ReceiverAction::Terminate));
    assert_eq!(receiver.next_port(0), None);
}

#[test]
fn terminated_port_does_not_hold_up_the_commit() {
    let mut receiver = ReceiverLoop::new(2, 0);
    assert_eq!(receiver.on_message(0, commit(0, "a", 1)), Ok(ReceiverAction::Wait));
    // the other port closes: every port that is still open has delivered the marker
    assert_eq!(
        receiver.on_message(1, ExecutorOperation::Terminate),
        Ok(ReceiverAction::Commit { epoch: Epoch::new(0, vec![(handle("a"), (0, 1))]) })
    );
    assert!(receiver.is_pollable(0));
    assert!(!receiver.is_pollable(1));
    // from now on the open port alone closes the epochs
    assert_eq!(
        receiver.on_message(0, commit(1, "a", 2)),
        Ok(ReceiverAction::Commit { epoch: Epoch::new(1, vec![(handle("a"), (0, 2))]) })
    );
}

#[test]
fn ports_are_polled_in_turn() {
    let receiver = ReceiverLoop::new(3, 0);
    assert_eq!(receiver.next_port(0), Some(1));
    assert_eq!(receiver.next_port(1), Some(2));
    assert_eq!(receiver.next_port(2), Some(0));
    // a port number behind the last port starts the cycle anew
    assert_eq!(receiver.next_port(7), Some(0));
    assert!(!receiver.is_pollable(3));
    let none = ReceiverLoop::new(0, 0);
    assert_eq!(none.next_port(0), None);
}
