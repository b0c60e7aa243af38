//! What the threads of a running pipeline decide on: the operations on the
//! channels, when a source asks for a commit, in which order the nodes start
//! and with which channels, and how the end of a node's thread is taken.

use crate::dag::{
    channel_ends, handle_views, handles_of_kind, receivers_of, senders_of, ChannelEnd, Dag, NodeKind,
};
use crate::dag_metadata::Watermark;
use crate::epoch::{Epoch, EpochView};
use crate::errors::ExecutionError;
use crate::node::{NodeHandle, NodeHandleView, PortHandle};
use crate::storage::{Database, Transaction};
use crate::types::{text, Operation, OperationView, Record, RecordView};
use vstd::prelude::*;

verus! {

/// The settings of a run.
#[derive(Clone, Copy, Debug, PartialEq, Eq, Structural)]
pub struct ExecutorOptions {
    /// The number of operations after which a source asks for a commit.
    pub commit_sz: u32,
    /// The number of operations that a channel holds before its sender waits.
    pub channel_buffer_sz: usize,
    /// The milliseconds after which a source asks for a commit.
    pub commit_time_threshold: u64,
}

impl Default for ExecutorOptions {
    fn default() -> (options: Self)
        ensures
            options == (ExecutorOptions { commit_sz: 10_000, channel_buffer_sz: 20_000, commit_time_threshold: 50 }),
    {
        Self { commit_sz: 10_000, channel_buffer_sz: 20_000, commit_time_threshold: 50 }
    }
}

/// Whether a source asks for a commit: once it has sent `commit_sz`
/// operations since the last commit, or once `commit_time_threshold`
/// milliseconds have gone by since then, whichever comes first.
pub fn should_commit(options: &ExecutorOptions, operations_since_commit: u32, elapsed_millis: u64) -> (ask: bool)
    ensures
        ask == (operations_since_commit >= options.commit_sz || elapsed_millis >= options.commit_time_threshold),
{
    operations_since_commit >= options.commit_sz || elapsed_millis >= options.commit_time_threshold
}

/// Whether an input port still delivers.
#[derive(Clone, Copy, Debug, PartialEq, Eq, Structural)]
pub enum InputPortState {
    Open,
    Terminated,
}

/// What travels on the channels between nodes: the changes of rows, and the
/// two markers `Commit` and `Terminate`, which carry no row.
#[derive(Debug, PartialEq, Eq)]
pub enum ExecutorOperation {
    Delete { old: Record },
    Insert { new: Record },
    Update { old: Record, new: Record },
    Commit { epoch: Epoch },
    Terminate,
}

/// What an `ExecutorOperation` holds, as mathematical values.
pub enum ExecutorOperationView {
    Delete { old: RecordView },
    Insert { new: RecordView },
    Update { old: RecordView, new: RecordView },
    Commit { epoch: EpochView },
    Terminate,
}

impl View for ExecutorOperation {
    type V = ExecutorOperationView;

    open spec fn view(&self) -> ExecutorOperationView {
        match self {
            ExecutorOperation::Delete { old } => ExecutorOperationView::Delete { old: old@ },
            ExecutorOperation::Insert { new } => ExecutorOperationView::Insert { new: new@ },
            ExecutorOperation::Update { old, new } => ExecutorOperationView::Update { old: old@, new: new@ },
            ExecutorOperation::Commit { epoch } => ExecutorOperationView::Commit { epoch: epoch@ },
            ExecutorOperation::Terminate => ExecutorOperationView::Terminate,
        }
    }
}

/// The operation on a channel that stands for a change of a row.
pub open spec fn wire_form(op: OperationView) -> ExecutorOperationView {
    match op {
        OperationView::Update { old, new } => ExecutorOperationView::Update { old, new },
        OperationView::Delete { old } => ExecutorOperationView::Delete { old },
        OperationView::Insert { new } => ExecutorOperationView::Insert { new },
    }
}

impl ExecutorOperation {
    /// The operation on a channel that stands for `op`.
    pub fn from_operation(op: Operation) -> (wire: ExecutorOperation)
        ensures
            wire@ == wire_form(op@),
    {
        match op {
            Operation::Update { old, new } => ExecutorOperation::Update { old, new },
            Operation::Delete { old } => ExecutorOperation::Delete { old },
            Operation::Insert { new } => ExecutorOperation::Insert { new },
        }
    }

    /// The name of the kind of the operation.
    pub fn kind_name(&self) -> (name: String)
        ensures
            name@ == (match self {
                ExecutorOperation::Delete { .. } => "Delete"@,
                ExecutorOperation::Update { .. } => "Update"@,
                ExecutorOperation::Insert { .. } => "Insert"@,
                ExecutorOperation::Terminate => "Terminate"@,
                ExecutorOperation::Commit { .. } => "Commit"@,
            }),
    {
        let type_str = match self {
            ExecutorOperation::Delete { .. } => "Delete",
            ExecutorOperation::Update { .. } => "Update",
            ExecutorOperation::Insert { .. } => "Insert",
            ExecutorOperation::Terminate => "Terminate",
            ExecutorOperation::Commit { .. } => "Commit",
        };
        text(type_str)
    }
}

/// The store of a node with the database in which the node keeps its own notes.
#[derive(Debug)]
pub struct StorageMetadata {
    pub env: Transaction,
    pub meta_db: Database,
}

impl StorageMetadata {
    pub fn new(env: Transaction, meta_db: Database) -> (metadata: Self)
        ensures
            metadata.env == env,
            metadata.meta_db == meta_db,
    {
        Self { env, meta_db }
    }
}

/// The channels on which what leaves through `port` is sent: those of the
/// sending ends of the port, in their order. One output port may feed
/// several consumers.
pub open spec fn channels_of_port(senders: Seq<ChannelEnd>, port: PortHandle) -> Seq<usize>
    decreases senders.len(),
{
    if senders.len() == 0 {
        Seq::empty()
    } else {
        let front = channels_of_port(senders.drop_last(), port);
        if senders.last().port == port {
            front.push(senders.last().channel)
        } else {
            front
        }
    }
}

/// The channels on which what leaves through `port` is sent.
pub fn fan_out(senders: &Vec<ChannelEnd>, port: PortHandle) -> (channels: Vec<usize>)
    ensures
        channels@ == channels_of_port(senders@, port),
{
    let mut channels: Vec<usize> = Vec::new();
    let mut i: usize = 0;
    proof {
        assert(senders@.subrange(0, 0) =~= Seq::<ChannelEnd>::empty());
    }
    while i < senders.len()
        invariant
            i <= senders@.len(),
            channels@ == channels_of_port(senders@.subrange(0, i as int), port),
        decreases senders@.len() - i,
    {
        proof {
            let next = senders@.subrange(0, i + 1);
            assert(next.drop_last() =~= senders@.subrange(0, i as int));
            assert(next.last() == senders@[i as int]);
        }
        if senders[i].port == port {
            channels.push(senders[i].channel);
        }
        i = i + 1;
    }
    proof {
        assert(senders@.subrange(0, i as int) =~= senders@);
    }
    channels
}

/// What the listener of a source keeps count of between two commits.
#[derive(Clone, Copy, Debug, PartialEq, Eq)]
pub struct SourceListener {
    /// The position of the last operation that was handed on.
    pub position: Watermark,
    /// The number of operations that were handed on since the last commit.
    pub uncommitted: u32,
}

impl SourceListener {
    /// A listener of a source that starts from `position`: the position
    /// that was committed last, or zero.
    pub fn new(position: Watermark) -> (listener: Self)
        ensures
            listener == (SourceListener { position, uncommitted: 0 }),
    {
        Self { position, uncommitted: 0 }
    }

    /// Notes that the operation at `position` was handed on.
    pub fn on_operation(&mut self, position: Watermark)
        ensures
            final(self).position == position,
            final(self).uncommitted == if old(self).uncommitted == u32::MAX {
                u32::MAX
            } else {
                (old(self).uncommitted + 1) as u32
            },
    {
        self.position = position;
        if self.uncommitted < u32::MAX {
            self.uncommitted = self.uncommitted + 1;
        }
    }

    /// Whether the listener asks for a commit now, `elapsed_millis` after the last one.
    pub fn wants_commit(&self, options: &ExecutorOptions, elapsed_millis: u64) -> (ask: bool)
        ensures
            ask == (self.uncommitted >= options.commit_sz || elapsed_millis >= options.commit_time_threshold),
    {
        should_commit(options, self.uncommitted, elapsed_millis)
    }

    /// Notes that an epoch was committed: the count starts anew, the position stays.
    pub fn on_commit(&mut self)
        ensures
            final(self).position == old(self).position,
            final(self).uncommitted == 0,
    {
        self.uncommitted = 0;
    }
}

/// How the end of a node's thread is taken.
#[derive(Clone, Copy, Debug, PartialEq, Eq, Structural)]
pub enum JoinVerdict {
    /// The thread ended as it should, or failed after the pipeline was told to stop.
    Finished,
    /// The thread failed while the pipeline was running: the failure is the
    /// failure of the whole pipeline.
    Failed,
}

/// Takes the end of a node's thread: a failure counts unless the pipeline
/// had been told to stop before.
pub fn thread_verdict(failed: bool, running: bool) -> (verdict: JoinVerdict)
    ensures
        verdict == JoinVerdict::Failed <==> failed && running,
{
    if failed && running {
        JoinVerdict::Failed
    } else {
        JoinVerdict::Finished
    }
}

/// What it takes to start one node.
#[derive(Debug)]
pub struct StartStep {
    pub handle: NodeHandle,
    pub kind: NodeKind,
    /// The sending ends of the channels of the node.
    pub senders: Vec<ChannelEnd>,
    /// The receiving ends of the channels of the node.
    pub receivers: Vec<ChannelEnd>,
    /// For a source, the position from which it starts.
    pub start_seq: Option<Watermark>,
}

/// The position from which the source `handle` starts: that of its first entry.
pub open spec fn start_position(positions: Seq<(NodeHandle, Watermark)>, handle: NodeHandleView) -> Option<Watermark>
    decreases positions.len(),
{
    if positions.len() == 0 {
        None
    } else if positions[0].0@ == handle {
        Some(positions[0].1)
    } else {
        start_position(positions.skip(1), handle)
    }
}

/// The position from which the source `handle` starts.
pub fn find_start_position(positions: &Vec<(NodeHandle, Watermark)>, handle: &NodeHandle) -> (found: Option<
    Watermark,
>)
    ensures
        found == start_position(positions@, handle@),
{
    let mut i: usize = 0;
    proof {
        assert(positions@.skip(0) =~= positions@);
    }
    while i < positions.len()
        invariant
            i <= positions@.len(),
            start_position(positions@, handle@) == start_position(positions@.skip(i as int), handle@),
        decreases positions@.len() - i,
    {
        proof {
            assert(positions@.skip(i as int)[0] == positions@[i as int]);
            assert(positions@.skip(i as int).skip(1) =~= positions@.skip(i + 1));
        }
        if positions[i].0.same_as(handle) {
            return Some(positions[i].1);
        }
        i = i + 1;
    }
    None
}

/// Whether the node can start: a sink needs a channel to receive from, a
/// source a channel to send on and a position to start from, a processor
/// a channel of each kind.
pub open spec fn can_start(
    dag: &Dag,
    positions: Seq<(NodeHandle, Watermark)>,
    kind: NodeKind,
    handle: NodeHandleView,
) -> bool {
    let senders = channel_ends(dag.edges@, handle, true, dag.edges@.len() as int);
    let receivers = channel_ends(dag.edges@, handle, false, dag.edges@.len() as int);
    match kind {
        NodeKind::Sink => receivers.len() > 0,
        NodeKind::Processor => senders.len() > 0 && receivers.len() > 0,
        NodeKind::Source => senders.len() > 0 && start_position(positions, handle) is Some,
    }
}

/// `step` is what it takes to start the node `handle` of kind `kind`.
pub open spec fn step_of(
    dag: &Dag,
    positions: Seq<(NodeHandle, Watermark)>,
    kind: NodeKind,
    handle: NodeHandleView,
    step: &StartStep,
) -> bool {
    &&& step.handle@ == handle
    &&& step.kind == kind
    &&& step.senders@ == channel_ends(dag.edges@, handle, true, dag.edges@.len() as int)
    &&& step.receivers@ == channel_ends(dag.edges@, handle, false, dag.edges@.len() as int)
    &&& step.start_seq == (if kind == NodeKind::Source {
        start_position(positions, handle)
    } else {
        None
    })
}

/// The steps start the nodes `handles`, all of kind `kind`, in their order.
pub open spec fn steps_of(
    dag: &Dag,
    positions: Seq<(NodeHandle, Watermark)>,
    kind: NodeKind,
    handles: Seq<NodeHandleView>,
    steps: Seq<StartStep>,
) -> bool {
    &&& steps.len() == handles.len()
    &&& forall|i: int| 0 <= i < handles.len() ==> step_of(dag, positions, kind, handles[i], #[trigger] &steps[i])
}

/// Every node of `handles` can start.
pub open spec fn all_can_start(
    dag: &Dag,
    positions: Seq<(NodeHandle, Watermark)>,
    kind: NodeKind,
    handles: Seq<NodeHandleView>,
) -> bool {
    forall|i: int| 0 <= i < handles.len() ==> can_start(dag, positions, kind, #[trigger] handles[i])
}

/// The steps to start the nodes of one kind, or `InvalidNodeHandle` with the
/// first of them that cannot start.
pub fn plan_kind(dag: &Dag, positions: &Vec<(NodeHandle, Watermark)>, kind: NodeKind, steps: &mut Vec<StartStep>) -> (done:
    Result<(), ExecutionError>)
    ensures
        ({
            let handles = handles_of_kind(dag.nodes@, kind);
            if all_can_start(dag, positions@, kind, handles) {
                &&& done is Ok
                &&& final(steps)@.len() == old(steps)@.len() + handles.len()
                &&& final(steps)@.subrange(0, old(steps)@.len() as int) == old(steps)@
                &&& steps_of(
                    dag,
                    positions@,
                    kind,
                    handles,
                    final(steps)@.subrange(old(steps)@.len() as int, final(steps)@.len() as int),
                )
            } else {
                done matches Err(ExecutionError::InvalidNodeHandle(handle)) && exists|i: int|
                    0 <= i < handles.len() && #[trigger] handles[i] == handle@ && !can_start(
                        dag,
                        positions@,
                        kind,
                        handles[i],
                    ) && forall|k: int| 0 <= k < i ==> can_start(dag, positions@, kind, #[trigger] handles[k])
            }
        }),
{
    let handles = dag.handles(kind);
    let ghost views = handles_of_kind(dag.nodes@, kind);
    let ghost start = steps@;
    let mut i: usize = 0;
    proof {
        assert(steps@.subrange(0, start.len() as int) =~= start);
    }
    while i < handles.len()
        invariant
            i <= handles@.len(),
            views == handle_views(handles@),
            views == handles_of_kind(dag.nodes@, kind),
            steps@.len() == start.len() + i,
            steps@.subrange(0, start.len() as int) == start,
            forall|k: int| 0 <= k < i ==> can_start(dag, positions@, kind, #[trigger] views[k]),
            forall|k: int|
                0 <= k < i ==> step_of(dag, positions@, kind, views[k], #[trigger] &steps@[start.len() + k]),
        decreases handles@.len() - i,
    {
        let handle = &handles[i];
        assert(views[i as int] == handle@);
        let senders = senders_of(dag, handle);
        let receivers = receivers_of(dag, handle);
        let start_seq = match kind {
            NodeKind::Source => find_start_position(positions, handle),
            _ => None,
        };
        let ready = match kind {
            NodeKind::Sink => receivers.len() > 0,
            NodeKind::Processor => senders.len() > 0 && receivers.len() > 0,
            NodeKind::Source => senders.len() > 0 && start_seq.is_some(),
        };
        if !ready {
            return Err(ExecutionError::InvalidNodeHandle(handle.clone()));
        }
        let ghost before = steps@;
        steps.push(StartStep { handle: handle.clone(), kind, senders, receivers, start_seq });
        proof {
            assert(steps@.subrange(0, start.len() as int) =~= before.subrange(0, start.len() as int));
            assert forall|k: int| 0 <= k < i + 1 implies step_of(
                dag,
                positions@,
                kind,
                views[k],
                #[trigger] &steps@[start.len() + k],
            ) by {
                if k < i {
                    assert(steps@[start.len() + k] == before[start.len() + k]);
                }
            }
        }
        i = i + 1;
    }
    proof {
        let tail = steps@.subrange(start.len() as int, steps@.len() as int);
        assert forall|k: int| 0 <= k < views.len() implies step_of(dag, positions@, kind, views[k], #[trigger] &tail[k]) by {
            assert(tail[k] == steps@[start.len() + k]);
        }
    }
    Ok(())
}

/// The steps start every node of the graph once: the sinks first, then the
/// processors, then the sources, each kind in the order of the graph.
pub open spec fn start_order(dag: &Dag, positions: Seq<(NodeHandle, Watermark)>, steps: Seq<StartStep>) -> bool {
    let sinks = handles_of_kind(dag.nodes@, NodeKind::Sink);
    let processors = handles_of_kind(dag.nodes@, NodeKind::Processor);
    let sources = handles_of_kind(dag.nodes@, NodeKind::Source);
    &&& steps.len() == sinks.len() + processors.len() + sources.len()
    &&& steps_of(dag, positions, NodeKind::Sink, sinks, steps.subrange(0, sinks.len() as int))
    &&& steps_of(
        dag,
        positions,
        NodeKind::Processor,
        processors,
        steps.subrange(sinks.len() as int, (sinks.len() + processors.len()) as int),
    )
    &&& steps_of(
        dag,
        positions,
        NodeKind::Source,
        sources,
        steps.subrange((sinks.len() + processors.len()) as int, steps.len() as int),
    )
}

/// Every node of the graph can start.
pub open spec fn startable(dag: &Dag, positions: Seq<(NodeHandle, Watermark)>) -> bool {
    &&& all_can_start(dag, positions, NodeKind::Sink, handles_of_kind(dag.nodes@, NodeKind::Sink))
    &&& all_can_start(dag, positions, NodeKind::Processor, handles_of_kind(dag.nodes@, NodeKind::Processor))
    &&& all_can_start(dag, positions, NodeKind::Source, handles_of_kind(dag.nodes@, NodeKind::Source))
}

/// The steps that start a pipeline: the sinks, then the processors, then the
/// sources, so that every channel has its receiver before anything is sent
/// on it. Where a node cannot start, nothing is started: the plan fails with
/// the handle of a node that cannot.
pub fn plan_start(dag: &Dag, positions: &Vec<(NodeHandle, Watermark)>) -> (plan: Result<Vec<StartStep>, ExecutionError>)
    ensures
        startable(dag, positions@) ==> (plan matches Ok(steps) && start_order(dag, positions@, steps@)),
        !startable(dag, positions@) ==> (plan matches Err(ExecutionError::InvalidNodeHandle(handle)) && exists|
            kind: NodeKind,
            i: int,
        |
            0 <= i < handles_of_kind(dag.nodes@, kind).len() && #[trigger] handles_of_kind(dag.nodes@, kind)[i]
                == handle@ && !can_start(dag, positions@, kind, handle@)),
{
    let mut steps: Vec<StartStep> = Vec::new();
    match plan_kind(dag, positions, NodeKind::Sink, &mut steps) {
        Ok(()) => {},
        Err(e) => {
            return Err(e);
        },
    }
    let ghost after_sinks = steps@;
    proof {
        assert(after_sinks.subrange(0, after_sinks.len() as int) =~= after_sinks);
    }
    match plan_kind(dag, positions, NodeKind::Processor, &mut steps) {
        Ok(()) => {},
        Err(e) => {
            return Err(e);
        },
    }
    let ghost after_processors = steps@;
    match plan_kind(dag, positions, NodeKind::Source, &mut steps) {
        Ok(()) => {},
        Err(e) => {
            return Err(e);
        },
    }
    proof {
        let n1 = after_sinks.len() as int;
        let n2 = after_processors.len() as int;
        assert(steps@.subrange(0, n1) =~= after_processors.subrange(0, n1));
        assert(steps@.subrange(n1, n2) =~= after_processors.subrange(n1, n2));
    }
    Ok(steps)
}

} // verus!
