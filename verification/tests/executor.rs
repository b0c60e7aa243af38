use dozer::dag::{ChannelEnd, Dag, Endpoint, Node, NodeKind};
use dozer::epoch::Epoch;
use dozer::errors::ExecutionError;
use dozer::executor::{
    fan_out, find_start_position, plan_start, should_commit, thread_verdict, ExecutorOperation, ExecutorOptions,
    InputPortState, JoinVerdict, SourceListener, StorageMetadata,
};
use dozer::node::{NodeHandle, OutputPortDef, OutputPortType, DEFAULT_PORT_HANDLE};
use dozer::storage::Transaction;
use dozer::types::{Field, Operation, Record};

fn handle(id: &str) -> NodeHandle {
    NodeHandle::new(None, id.to_string())
}

fn row(id: i64) -> Record {
    Record::new(None, vec![Field::Int(id)], None)
}

#[test]
fn default_options() {
    let options = ExecutorOptions::default();
    assert_eq!(options.commit_sz, 10_000);
    assert_eq!(options.channel_buffer_sz, 20_000);
    assert_eq!(options.commit_time_threshold, 50);
}

#[test]
fn commit_is_asked_for_by_count_or_by_time() {
    let options = ExecutorOptions::default();
    assert!(!should_commit(&options, 0, 0));
    assert!(!should_commit(&options, 9_999, 49));
    assert!(should_commit(&options, 10_000, 0));
    assert!(should_commit(&options, 0, 50));
    assert!(should_commit(&options, 20_000, 100));
    let eager = ExecutorOptions { commit_sz: 0, channel_buffer_sz: 1, commit_time_threshold: 1000 };
    assert!(should_commit(&eager, 0, 0));
}

#[test]
fn operations_on_the_wire() {
    assert_eq!(
        ExecutorOperation::from_operation(Operation::Insert { new: row(1) }),
        ExecutorOperation::Insert { new: row(1) }
    );
    assert_eq!(
        ExecutorOperation::from_operation(Operation::Delete { old: row(1) }),
        ExecutorOperation::Delete { old: row(1) }
    );
    assert_eq!(
        ExecutorOperation::from_operation(Operation::Update { old: row(1), new: row(2) }),
        ExecutorOperation::Update { old: row(1), new: row(2) }
    );
    assert_eq!(ExecutorOperation::Insert { new: row(1) }.kind_name(), "Insert");
    assert_eq!(ExecutorOperation::Delete { old: row(1) }.kind_name(), "Delete");
    assert_eq!(ExecutorOperation::Update { old: row(1), new: row(2) }.kind_name(), "Update");
    assert_eq!(ExecutorOperation::Commit { epoch: Epoch::new(0, vec![]) }.kind_name(), "Commit");
    assert_eq!(ExecutorOperation::Terminate.kind_name(), "Terminate");
    assert_ne!(InputPortState::Open, InputPortState::Terminated);
}

#[test]
fn failure_counts_only_while_running() {
    assert_eq!(thread_verdict(true, true), JoinVerdict::Failed);
    assert_eq!(thread_verdict(true, false), JoinVerdict::Finished);
    assert_eq!(thread_verdict(false, true), JoinVerdict::Finished);
    assert_eq!(thread_verdict(false, false), JoinVerdict::Finished);
}

#[test]
fn storage_metadata_keeps_what_it_is_given() {
    let mut tx = Transaction::new();
    let meta_db = tx.open_database(false);
    tx.put(meta_db, b"k", b"v").unwrap();
    let metadata = StorageMetadata::new(tx, meta_db);
    assert_eq!(metadata.meta_db, meta_db);
    assert_eq!(metadata.env.get(meta_db, b"k"), Ok(Some(b"v".to_vec())));
}

fn pipeline() -> Dag {
    let mut dag = Dag::new();
    dag.add_node(Node::source(handle("conn1"), vec![OutputPortDef::new(1, OutputPortType::Stateless)]));
    dag.add_node(Node::processor(
        handle("aggregation"),
        vec![DEFAULT_PORT_HANDLE],
        vec![OutputPortDef::new(DEFAULT_PORT_HANDLE, OutputPortType::Stateless)],
    ));
    dag.add_node(Node::sink(handle("sink"), vec![DEFAULT_PORT_HANDLE]));
    dag.connect(Endpoint::new(handle("conn1"), 1), Endpoint::new(handle("aggregation"), DEFAULT_PORT_HANDLE))
        .unwrap();
    dag.connect(
        Endpoint::new(handle("aggregation"), DEFAULT_PORT_HANDLE),
        Endpoint::new(handle("sink"), DEFAULT_PORT_HANDLE),
    )
    .unwrap();
    dag
}

#[test]
fn nodes_start_downstream_first() {
    let dag = pipeline();
    let positions = vec![(handle("conn1"), (2, 17))];
    let plan = plan_start(&dag, &positions).unwrap();
    let order: Vec<(String, NodeKind)> = plan.iter().map(|s| (s.handle.id.clone(), s.kind)).collect();
    assert_eq!(
        order,
        vec![
            ("sink".to_string(), NodeKind::Sink),
            ("aggregation".to_string(), NodeKind::Processor),
            ("conn1".to_string(), NodeKind::Source),
        ]
    );
    assert_eq!(plan[0].senders, vec![]);
    assert_eq!(plan[0].receivers, vec![ChannelEnd { port: DEFAULT_PORT_HANDLE, channel: 1 }]);
    assert_eq!(plan[0].start_seq, None);
    assert_eq!(plan[1].senders, vec![ChannelEnd { port: DEFAULT_PORT_HANDLE, channel: 1 }]);
    assert_eq!(plan[1].receivers, vec![ChannelEnd { port: DEFAULT_PORT_HANDLE, channel: 0 }]);
    assert_eq!(plan[1].start_seq, None);
    assert_eq!(plan[2].senders, vec![ChannelEnd { port: 1, channel: 0 }]);
    assert_eq!(plan[2].receivers, vec![]);
    assert_eq!(plan[2].start_seq, Some((2, 17)));
}

#[test]
fn a_node_that_cannot_start_fails_the_plan() {
    // a source without a position to start from
    let dag = pipeline();
    match plan_start(&dag, &vec![]) {
        Err(ExecutionError::InvalidNodeHandle(h)) => assert_eq!(h, handle("conn1")),
        other => panic!("unexpected {:?}", other),
    }
    // a sink that nothing leads to
    let mut dag = pipeline();
    dag.add_node(Node::sink(handle("lonely"), vec![DEFAULT_PORT_HANDLE]));
    match plan_start(&dag, &vec![(handle("conn1"), (0, 0))]) {
        Err(ExecutionError::InvalidNodeHandle(h)) => assert_eq!(h, handle("lonely")),
        other => panic!("unexpected {:?}", other),
    }
    // a processor that leads nowhere
    let mut dag = Dag::new();
    dag.add_node(Node::source(handle("s"), vec![OutputPortDef::new(1, OutputPortType::Stateless)]));
    dag.add_node(Node::processor(handle("p"), vec![1], vec![]));
    dag.connect(Endpoint::new(handle("s"), 1), Endpoint::new(handle("p"), 1)).unwrap();
    match plan_start(&dag, &vec![(handle("s"), (0, 0))]) {
        Err(ExecutionError::InvalidNodeHandle(h)) => assert_eq!(h, handle("p")),
        other => panic!("unexpected {:?}", other),
    }
    assert_eq!(plan_start(&Dag::new(), &vec![]).unwrap().len(), 0);
}

#[test]
fn start_position_of_a_source() {
    let positions = vec![(handle("a"), (1, 2)), (handle("b"), (3, 4)), (handle("a"), (5, 6))];
    assert_eq!(find_start_position(&positions, &handle("a")), Some((1, 2)));
    assert_eq!(find_start_position(&positions, &handle("b")), Some((3, 4)));
    assert_eq!(find_start_position(&positions, &handle("c")), None);
}

#[test]
fn one_port_feeds_several_consumers() {
    let senders = vec![
        ChannelEnd { port: 1, channel: 0 },
        ChannelEnd { port: 2, channel: 1 },
        ChannelEnd { port: 1, channel: 5 },
    ];
    assert_eq!(fan_out(&senders, 1), vec![0, 5]);
    assert_eq!(fan_out(&senders, 2), vec![1]);
    assert_eq!(fan_out(&senders, 3), Vec::<usize>::new());
    assert_eq!(fan_out(&vec![], 1), Vec::<usize>::new());
}

#[test]
fn listener_counts_between_commits() {
    let options = ExecutorOptions { commit_sz: 2, channel_buffer_sz: 1, commit_time_threshold: 50 };
    let mut listener = SourceListener::new((4, 40));
    assert_eq!(listener, SourceListener { position: (4, 40), uncommitted: 0 });
    assert!(!listener.wants_commit(&options, 10));
    assert!(listener.wants_commit(&options, 50));
    listener.on_operation((4, 41));
    assert!(!listener.wants_commit(&options, 10));
    listener.on_operation((4, 42));
    assert!(listener.wants_commit(&options, 10));
    assert_eq!(listener, SourceListener { position: (4, 42), uncommitted: 2 });
    listener.on_commit();
    assert_eq!(listener, SourceListener { position: (4, 42), uncommitted: 0 });
    let mut full = SourceListener { position: (0, 0), uncommitted: u32::MAX };
    full.on_operation((0, 1));
    assert_eq!(full.uncommitted, u32::MAX);
}
