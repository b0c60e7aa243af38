//! The loop in which a processor or a sink takes what its input ports deliver.
//!
//! The ports are polled in turn. A port that has delivered the commit marker
//! of the epoch is caught up and is not polled again until every port that is
//! still open has delivered it too; then the node commits once and the next
//! epoch begins. A port that delivers `Terminate`, or whose channel is closed,
//! is terminated; the node ends when all its ports are.

use crate::dag_metadata::Watermark;
use crate::epoch::{detail_views, Epoch, EpochView};
use crate::errors::ExecutionError;
use crate::executor::{ExecutorOperation, ExecutorOperationView, InputPortState};
use crate::node::{NodeHandle, NodeHandleView};
use crate::types::{Operation, OperationView};
use vstd::prelude::*;

verus! {

/// The state of the loop, as mathematical values.
pub struct ReceiverState {
    /// Which ports still deliver.
    pub ports: Seq<InputPortState>,
    /// Which ports have delivered the commit marker of the awaited epoch.
    pub caught_up: Seq<bool>,
    /// The number of the awaited epoch.
    pub epoch_id: u64,
    /// The positions of the sources that the markers of the awaited epoch brought.
    pub details: Seq<(NodeHandleView, Watermark)>,
}

/// What the node does with what a port delivered.
#[derive(Debug, PartialEq, Eq)]
pub enum ReceiverAction {
    /// Process the change that the port delivered.
    Process { port_index: usize, op: Operation },
    /// Commit the epoch and hand its marker on.
    Commit { epoch: Epoch },
    /// Nothing yet.
    Wait,
    /// End: every port is terminated.
    Terminate,
}

/// What a `ReceiverAction` holds, as mathematical values.
pub enum ReceiverActionView {
    Process { port_index: usize, op: OperationView },
    Commit { epoch: EpochView },
    Wait,
    Terminate,
}

impl View for ReceiverAction {
    type V = ReceiverActionView;

    open spec fn view(&self) -> ReceiverActionView {
        match self {
            ReceiverAction::Process { port_index, op } => ReceiverActionView::Process {
                port_index: *port_index,
                op: op@,
            },
            ReceiverAction::Commit { epoch } => ReceiverActionView::Commit { epoch: epoch@ },
            ReceiverAction::Wait => ReceiverActionView::Wait,
            ReceiverAction::Terminate => ReceiverActionView::Terminate,
        }
    }
}

/// Every port is terminated.
pub open spec fn all_terminated(ports: Seq<InputPortState>) -> bool {
    forall|i: int| 0 <= i < ports.len() ==> #[trigger] ports[i] == InputPortState::Terminated
}

/// Some port has delivered the commit marker, and every open port has.
pub open spec fn round_complete(ports: Seq<InputPortState>, caught_up: Seq<bool>) -> bool {
    &&& exists|i: int| 0 <= i < caught_up.len() && #[trigger] caught_up[i]
    &&& forall|i: int| 0 <= i < ports.len() && #[trigger] ports[i] == InputPortState::Open ==> caught_up[i]
}

impl ReceiverState {
    /// The state is one in which the loop rests: only open ports are caught
    /// up, and the round is not complete.
    pub open spec fn wf(self) -> bool {
        &&& self.ports.len() == self.caught_up.len()
        &&& forall|i: int|
            0 <= i < self.ports.len() && #[trigger] self.caught_up[i] ==> self.ports[i] == InputPortState::Open
        &&& !round_complete(self.ports, self.caught_up)
    }

    /// The port is polled: it is open and not caught up.
    pub open spec fn pollable(self, index: int) -> bool {
        0 <= index < self.ports.len() && self.ports[index] == InputPortState::Open && !self.caught_up[index]
    }

    /// The state in which the next epoch is awaited.
    pub open spec fn next_epoch(self, ports: Seq<InputPortState>) -> ReceiverState {
        ReceiverState {
            ports,
            caught_up: Seq::new(ports.len(), |i: int| false),
            epoch_id: (self.epoch_id + 1) as u64,
            details: Seq::empty(),
        }
    }
}

/// How a step of the loop ends.
pub enum Step {
    /// The loop is in `state` now, and the node does `action`.
    Done { state: ReceiverState, action: ReceiverActionView },
    /// The port delivered the commit marker of another epoch than the awaited one.
    WrongEpoch { expected: u64, received: u64 },
}

/// The data operation that a channel operation stands for.
pub open spec fn data_of(op: ExecutorOperationView) -> Option<OperationView> {
    match op {
        ExecutorOperationView::Insert { new } => Some(OperationView::Insert { new }),
        ExecutorOperationView::Delete { old } => Some(OperationView::Delete { old }),
        ExecutorOperationView::Update { old, new } => Some(OperationView::Update { old, new }),
        _ => None,
    }
}

/// What the loop does when the port `index` delivers `op`.
pub open spec fn step(state: ReceiverState, index: int, op: ExecutorOperationView) -> Step {
    match op {
        ExecutorOperationView::Commit { epoch } => if epoch.id != state.epoch_id {
            Step::WrongEpoch { expected: state.epoch_id, received: epoch.id }
        } else {
            let caught_up = state.caught_up.update(index, true);
            let details = state.details + epoch.details;
            if round_complete(state.ports, caught_up) {
                Step::Done {
                    state: state.next_epoch(state.ports),
                    action: ReceiverActionView::Commit { epoch: EpochView { id: state.epoch_id, details } },
                }
            } else {
                Step::Done { state: ReceiverState { caught_up, details, ..state }, action: ReceiverActionView::Wait }
            }
        },
        ExecutorOperationView::Terminate => {
            let ports = state.ports.update(index, InputPortState::Terminated);
            if all_terminated(ports) {
                Step::Done { state: ReceiverState { ports, ..state }, action: ReceiverActionView::Terminate }
            } else if round_complete(ports, state.caught_up) {
                Step::Done {
                    state: state.next_epoch(ports),
                    action: ReceiverActionView::Commit {
                        epoch: EpochView { id: state.epoch_id, details: state.details },
                    },
                }
            } else {
                Step::Done { state: ReceiverState { ports, ..state }, action: ReceiverActionView::Wait }
            }
        },
        _ => Step::Done {
            state,
            action: ReceiverActionView::Process { port_index: index as usize, op: data_of(op)->Some_0 },
        },
    }
}

/// The state of the receiver loop of a node.
#[derive(Debug)]
pub struct ReceiverLoop {
    port_states: Vec<InputPortState>,
    caught_up: Vec<bool>,
    epoch_id: u64,
    details: Vec<(NodeHandle, Watermark)>,
}

impl View for ReceiverLoop {
    type V = ReceiverState;

    closed spec fn view(&self) -> ReceiverState {
        ReceiverState {
            ports: self.port_states@,
            caught_up: self.caught_up@,
            epoch_id: self.epoch_id,
            details: detail_views(self.details@),
        }
    }
}

impl ReceiverLoop {
    /// The loop of a node with `ports` input ports, all open, that awaits the
    /// epoch `epoch_id`.
    pub fn new(ports: usize, epoch_id: u64) -> (receiver: Self)
        ensures
            receiver@.wf(),
            receiver@ == (ReceiverState {
                ports: Seq::new(ports as nat, |i: int| InputPortState::Open),
                caught_up: Seq::new(ports as nat, |i: int| false),
                epoch_id,
                details: Seq::empty(),
            }),
    {
        let mut port_states: Vec<InputPortState> = Vec::new();
        let mut caught_up: Vec<bool> = Vec::new();
        let mut i: usize = 0;
        while i < ports
            invariant
                i <= ports,
                port_states@.len() == i,
                caught_up@.len() == i,
                forall|k: int| 0 <= k < i ==> port_states@[k] == InputPortState::Open,
                forall|k: int| 0 <= k < i ==> !caught_up@[k],
            decreases ports - i,
        {
            port_states.push(InputPortState::Open);
            caught_up.push(false);
            i = i + 1;
        }
        let receiver = Self { port_states, caught_up, epoch_id, details: Vec::new() };
        proof {
            assert(receiver@.ports =~= Seq::new(ports as nat, |i: int| InputPortState::Open));
            assert(receiver@.caught_up =~= Seq::new(ports as nat, |i: int| false));
            assert(receiver@.details =~= Seq::empty());
        }
        receiver
    }

    /// The number of the awaited epoch.
    pub fn awaited_epoch(&self) -> (id: u64)
        ensures
            id == self@.epoch_id,
    {
        self.epoch_id
    }

    /// The number of input ports.
    pub fn port_count(&self) -> (count: usize)
        ensures
            count == self@.ports.len(),
    {
        self.port_states.len()
    }

    /// Whether the port is polled: it is open and not caught up.
    pub fn is_pollable(&self, index: usize) -> (pollable: bool)
        requires
            self@.wf(),
        ensures
            pollable == self@.pollable(index as int),
    {
        index < self.port_states.len() && self.port_states[index] == InputPortState::Open
            && !self.caught_up[index]
    }

    /// The port to poll after the port `last`: the next one in the cycle of
    /// the ports that is polled, so that no port is passed over twice while
    /// another waits. `None` where no port is polled.
    pub fn next_port(&self, last: usize) -> (next: Option<usize>)
        requires
            self@.wf(),
        ensures
            match next {
                Some(i) => {
                    &&& self@.pollable(i as int)
                    &&& i > last ==> forall|k: int| last < k < i ==> !self@.pollable(k)
                    &&& i <= last ==> forall|k: int| (last < k || k < i) ==> !self@.pollable(k)
                },
                None => forall|k: int| !self@.pollable(k),
            },
    {
        let n = self.port_states.len();
        let mut i: usize = if last < n {
            last + 1
        } else {
            n
        };
        while i < n
            invariant
                self@.wf(),
                n == self@.ports.len(),
                last < i <= n || (last >= n && i == n),
                forall|k: int| last < k < i ==> !self@.pollable(k),
            decreases n - i,
        {
            if self.is_pollable(i) {
                return Some(i);
            }
            i = i + 1;
        }
        let mut j: usize = 0;
        while j < n && j <= last
            invariant
                self@.wf(),
                n == self@.ports.len(),
                j <= n,
                forall|k: int| last < k ==> !self@.pollable(k),
                forall|k: int| 0 <= k < j ==> !self@.pollable(k),
            decreases n - j,
        {
            if self.is_pollable(j) {
                return Some(j);
            }
            j = j + 1;
        }
        None
    }

    fn round_is_complete(&self) -> (complete: bool)
        requires
            self.port_states@.len() == self.caught_up@.len(),
        ensures
            complete == round_complete(self.port_states@, self.caught_up@),
    {
        let mut some = false;
        let mut i: usize = 0;
        while i < self.port_states.len()
            invariant
                i <= self.port_states@.len(),
                self.port_states@.len() == self.caught_up@.len(),
                some <==> exists|k: int| 0 <= k < i && #[trigger] self.caught_up@[k],
                forall|k: int|
                    0 <= k < i && #[trigger] self.port_states@[k] == InputPortState::Open ==> self.caught_up@[k],
            decreases self.port_states@.len() - i,
        {
            if self.caught_up[i] {
                some = true;
            } else if self.port_states[i] == InputPortState::Open {
                assert(self.port_states@[i as int] == InputPortState::Open && !self.caught_up@[i as int]);
                return false;
            }
            i = i + 1;
        }
        some
    }

    fn is_all_terminated(&self) -> (all: bool)
        ensures
            all == all_terminated(self.port_states@),
    {
        let mut i: usize = 0;
        while i < self.port_states.len()
            invariant
                i <= self.port_states@.len(),
                forall|k: int| 0 <= k < i ==> #[trigger] self.port_states@[k] == InputPortState::Terminated,
            decreases self.port_states@.len() - i,
        {
            if self.port_states[i] != InputPortState::Terminated {
                assert(self.port_states@[i as int] != InputPortState::Terminated);
                return false;
            }
            i = i + 1;
        }
        true
    }

    /// Closes the round: returns its epoch and begins the next one.
    fn close_round(&mut self) -> (epoch: Epoch)
        requires
            old(self).port_states@.len() == old(self).caught_up@.len(),
            old(self).epoch_id < u64::MAX,
        ensures
            epoch@ == (EpochView { id: old(self)@.epoch_id, details: old(self)@.details }),
            final(self)@ == old(self)@.next_epoch(old(self)@.ports),
    {
        let mut details: Vec<(NodeHandle, Watermark)> = Vec::new();
        std::mem::swap(&mut details, &mut self.details);
        let epoch = Epoch { id: self.epoch_id, details };
        self.epoch_id = self.epoch_id + 1;
        let mut i: usize = 0;
        while i < self.caught_up.len()
            invariant
                i <= self.caught_up@.len(),
                self.caught_up@.len() == old(self).caught_up@.len(),
                self.port_states == old(self).port_states,
                self.epoch_id == old(self).epoch_id + 1,
                self.details@.len() == 0,
                forall|k: int| 0 <= k < i ==> !self.caught_up@[k],
            decreases self.caught_up@.len() - i,
        {
            self.caught_up[i] = false;
            i = i + 1;
        }
        proof {
            assert(self@.caught_up =~= Seq::new(self@.ports.len(), |i: int| false));
            assert(self@.details =~= Seq::empty());
        }
        epoch
    }

    /// Takes what the port `index` delivered and says what the node does.
    pub fn on_message(&mut self, index: usize, op: ExecutorOperation) -> (action: Result<
        ReceiverAction,
        ExecutionError,
    >)
        requires
            old(self)@.wf(),
            old(self)@.pollable(index as int),
            old(self)@.epoch_id < u64::MAX,
        ensures
            final(self)@.wf(),
            match step(old(self)@, index as int, op@) {
                Step::Done { state, action: done } => action matches Ok(a) && a@ == done && final(self)@ == state,
                Step::WrongEpoch { expected, received } => action == Err::<ReceiverAction, ExecutionError>(
                    ExecutionError::InvalidEpoch { expected, received },
                ) && final(self)@ == old(self)@,
            },
    {
        match op {
            ExecutorOperation::Commit { epoch } => {
                if epoch.id != self.epoch_id {
                    return Err(ExecutionError::InvalidEpoch { expected: self.epoch_id, received: epoch.id });
                }
                let ghost before = self@;
                self.caught_up[index] = true;
                let mut brought = epoch.details;
                let ghost brought_views = detail_views(brought@);
                self.details.append(&mut brought);
                proof {
                    assert(self@.caught_up =~= before.caught_up.update(index as int, true));
                    assert(self@.details =~= before.details + brought_views);
                }
                if self.round_is_complete() {
                    let epoch = self.close_round();
                    proof {
                        lemma_next_epoch_rests(before, before.ports);
                    }
                    Ok(ReceiverAction::Commit { epoch })
                } else {
                    Ok(ReceiverAction::Wait)
                }
            },
            ExecutorOperation::Terminate => {
                let ghost before = self@;
                self.port_states[index] = InputPortState::Terminated;
                proof {
                    assert(self@.ports =~= before.ports.update(index as int, InputPortState::Terminated));
                }
                if self.is_all_terminated() {
                    proof {
                        assert forall|i: int| 0 <= i < self@.caught_up.len() implies !#[trigger] self@.caught_up[i] by {
                            if self@.caught_up[i] {
                                assert(before.ports[i] == InputPortState::Open);
                                assert(self@.ports[i] == InputPortState::Terminated);
                            }
                        }
                    }
                    Ok(ReceiverAction::Terminate)
                } else if self.round_is_complete() {
                    let epoch = self.close_round();
                    proof {
                        lemma_next_epoch_rests(before, before.ports.update(index as int, InputPortState::Terminated));
                    }
                    Ok(ReceiverAction::Commit { epoch })
                } else {
                    Ok(ReceiverAction::Wait)
                }
            },
            ExecutorOperation::Insert { new } => Ok(
                ReceiverAction::Process { port_index: index, op: Operation::Insert { new } },
            ),
            ExecutorOperation::Delete { old } => Ok(
                ReceiverAction::Process { port_index: index, op: Operation::Delete { old } },
            ),
            ExecutorOperation::Update { old, new } => Ok(
                ReceiverAction::Process { port_index: index, op: Operation::Update { old, new } },
            ),
        }
    }
}

proof fn lemma_next_epoch_rests(state: ReceiverState, ports: Seq<InputPortState>)
    ensures
        state.next_epoch(ports).wf(),
{
}

/// One delivery: a port, and what it delivered.
pub struct Delivery {
    pub port: int,
    pub op: ExecutorOperationView,
}

/// The state of the loop after the deliveries, one after the other. `None`
/// where a delivery comes from a port that is not polled, or brings the
/// commit marker of another epoch than the awaited one.
pub open spec fn state_after(start: ReceiverState, deliveries: Seq<Delivery>) -> Option<ReceiverState>
    decreases deliveries.len(),
{
    if deliveries.len() == 0 {
        Some(start)
    } else {
        match state_after(start, deliveries.drop_last()) {
            None => None,
            Some(state) => if !state.pollable(deliveries.last().port) {
                None
            } else {
                match step(state, deliveries.last().port, deliveries.last().op) {
                    Step::Done { state: next, .. } => Some(next),
                    Step::WrongEpoch { .. } => None,
                }
            },
        }
    }
}

/// Among the deliveries, the port has delivered the commit marker of the epoch.
pub open spec fn delivered_commit(deliveries: Seq<Delivery>, port: int, epoch_id: u64) -> bool {
    exists|k: int|
        0 <= k < deliveries.len() && (#[trigger] deliveries[k]).port == port && (deliveries[k].op matches ExecutorOperationView::Commit {
            epoch,
        } && epoch.id == epoch_id)
}

/// A step from a state in which the loop rests leads to one in which it rests.
pub proof fn lemma_step_rests(state: ReceiverState, index: int, op: ExecutorOperationView)
    requires
        state.wf(),
        state.pollable(index),
    ensures
        step(state, index, op) matches Step::Done { state: next, .. } ==> next.wf() && next.ports.len()
            == state.ports.len(),
{
    match op {
        ExecutorOperationView::Commit { epoch } => {
            if epoch.id == state.epoch_id {
                let caught_up = state.caught_up.update(index, true);
                if !round_complete(state.ports, caught_up) {
                    let next = ReceiverState { caught_up, details: state.details + epoch.details, ..state };
                    assert forall|i: int| 0 <= i < next.ports.len() && #[trigger] next.caught_up[i] implies next.ports[i]
                        == InputPortState::Open by {
                        if i != index {
                            assert(state.caught_up[i]);
                        }
                    }
                }
            }
        },
        ExecutorOperationView::Terminate => {
            let ports = state.ports.update(index, InputPortState::Terminated);
            let next = ReceiverState { ports, ..state };
            if all_terminated(ports) {
                assert forall|i: int| 0 <= i < next.caught_up.len() implies !#[trigger] next.caught_up[i] by {
                    if state.caught_up[i] {
                        assert(state.ports[i] == InputPortState::Open);
                        assert(ports[i] == InputPortState::Terminated);
                    }
                }
            } else if !round_complete(ports, state.caught_up) {
                assert forall|i: int| 0 <= i < next.ports.len() && #[trigger] next.caught_up[i] implies next.ports[i]
                    == InputPortState::Open by {
                    assert(state.caught_up[i]);
                    assert(i != index);
                }
            }
        },
        _ => {},
    }
}

/// In every state that the loop reaches from a state in which no port is
/// caught up, a port is caught up only if it has delivered the commit marker
/// of the awaited epoch.
pub proof fn lemma_caught_up_means_delivered(start: ReceiverState, deliveries: Seq<Delivery>)
    requires
        start.wf(),
        forall|i: int| 0 <= i < start.caught_up.len() ==> !#[trigger] start.caught_up[i],
    ensures
        state_after(start, deliveries) matches Some(state) ==> {
            &&& state.wf()
            &&& state.ports.len() == start.ports.len()
            &&& forall|i: int|
                0 <= i < state.caught_up.len() && #[trigger] state.caught_up[i] ==> delivered_commit(
                    deliveries,
                    i,
                    state.epoch_id,
                )
        },
    decreases deliveries.len(),
{
    if deliveries.len() > 0 {
        let front = deliveries.drop_last();
        let last = deliveries.last();
        lemma_caught_up_means_delivered(start, front);
        if let Some(state) = state_after(start, front) {
            if state.pollable(last.port) {
                lemma_step_rests(state, last.port, last.op);
                if let Step::Done { state: next, .. } = step(state, last.port, last.op) {
                    assert forall|i: int| 0 <= i < next.caught_up.len() && #[trigger] next.caught_up[i] implies delivered_commit(
                        deliveries,
                        i,
                        next.epoch_id,
                    ) by {
                        if i == last.port && last.op is Commit {
                            assert(deliveries[deliveries.len() - 1] == last);
                        } else {
                            assert(state.caught_up[i]);
                            assert(next.epoch_id == state.epoch_id);
                            let k = choose|k: int|
                                0 <= k < front.len() && (#[trigger] front[k]).port == i && (front[k].op matches ExecutorOperationView::Commit {
                                    epoch,
                                } && epoch.id == state.epoch_id);
                            assert(deliveries[k] == front[k]);
                        }
                    }
                }
            }
        }
    }
}

/// Commit barrier: when the node commits an epoch, every input port that is
/// still open has delivered the commit marker of that epoch. It holds after
/// any run of deliveries, so however unevenly the ports deliver.
pub proof fn lemma_commit_barrier(start: ReceiverState, deliveries: Seq<Delivery>, port: int)
    requires
        start.wf(),
        forall|i: int| 0 <= i < start.caught_up.len() ==> !#[trigger] start.caught_up[i],
        deliveries.len() > 0,
        state_after(start, deliveries.drop_last()) matches Some(state) && state.pollable(deliveries.last().port) && (
        step(state, deliveries.last().port, deliveries.last().op) matches Step::Done {
            state: next,
            action: ReceiverActionView::Commit { epoch },
        } && 0 <= port < next.ports.len() && next.ports[port] == InputPortState::Open),
    ensures
        state_after(start, deliveries.drop_last()) matches Some(state) && (step(
            state,
            deliveries.last().port,
            deliveries.last().op,
        ) matches Step::Done { action: ReceiverActionView::Commit { epoch }, .. } && delivered_commit(
            deliveries,
            port,
            epoch.id,
        )),
{
    let front = deliveries.drop_last();
    let last = deliveries.last();
    lemma_caught_up_means_delivered(start, front);
    let state = state_after(start, front)->Some_0;
    if port == last.port && last.op is Commit {
        assert(deliveries[deliveries.len() - 1] == last);
    } else {
        if last.op is Commit {
            assert(state.caught_up.update(last.port, true)[port]);
        } else {
            assert(state.ports.update(last.port, InputPortState::Terminated)[port] == InputPortState::Open);
        }
        assert(state.caught_up[port]);
        let k = choose|k: int|
            0 <= k < front.len() && (#[trigger] front[k]).port == port && (front[k].op matches ExecutorOperationView::Commit {
                epoch,
            } && epoch.id == state.epoch_id);
        assert(deliveries[k] == front[k]);
    }
}

} // verus!
