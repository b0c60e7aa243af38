use dozer::dag::{receivers_of, senders_of, ChannelEnd, Dag, Edge, Endpoint, Node, NodeKind};
use dozer::errors::ExecutionError;
use dozer::node::{NodeHandle, OutputPortDef, OutputPortType, DEFAULT_PORT_HANDLE};

fn handle(id: &str) -> NodeHandle {
    NodeHandle::new(None, id.to_string())
}

fn stateless(port: u16) -> OutputPortDef {
    OutputPortDef::new(port, OutputPortType::Stateless)
}

/// Two sources feed one processor, which feeds two sinks.
fn diamond() -> Dag {
    let mut dag = Dag::new();
    dag.add_node(Node::source(handle("users"), vec![stateless(1)]));
    dag.add_node(Node::sink(handle("cache"), vec![DEFAULT_PORT_HANDLE]));
    dag.add_node(Node::processor(handle("join"), vec![10, 20], vec![stateless(30)]));
    dag.add_node(Node::source(handle("departments"), vec![stateless(2)]));
    dag.add_node(Node::sink(handle("log"), vec![DEFAULT_PORT_HANDLE]));
    dag.connect(Endpoint::new(handle("users"), 1), Endpoint::new(handle("join"), 10)).unwrap();
    dag.connect(Endpoint::new(handle("departments"), 2), Endpoint::new(handle("join"), 20)).unwrap();
    dag.connect(Endpoint::new(handle("join"), 30), Endpoint::new(handle("cache"), DEFAULT_PORT_HANDLE)).unwrap();
    dag.connect(Endpoint::new(handle("join"), 30), Endpoint::new(handle("log"), DEFAULT_PORT_HANDLE)).unwrap();
    dag
}

#[test]
fn nodes_by_kind() {
    let dag = diamond();
    assert_eq!(dag.get_sources(), vec![handle("users"), handle("departments")]);
    assert_eq!(dag.get_processors(), vec![handle("join")]);
    assert_eq!(dag.get_sinks(), vec![handle("cache"), handle("log")]);
    assert_eq!(dag.handles(NodeKind::Sink), dag.get_sinks());
    assert_eq!(Dag::new().get_sources(), vec![]);
}

#[test]
fn node_lookup() {
    let dag = diamond();
    assert_eq!(dag.node_index(&handle("join")), Some(2));
    assert_eq!(dag.node_index(&handle("nobody")), None);
    assert_eq!(dag.node_index(&NodeHandle::new(Some(1), "join".to_string())), None);
    assert!(handle("a").same_as(&handle("a")));
    assert!(!handle("a").same_as(&handle("b")));
    assert!(!handle("a").same_as(&NodeHandle::new(Some(0), "a".to_string())));
    assert_eq!(handle("a").clone(), handle("a"));
}

#[test]
fn connect_checks_nodes_and_ports() {
    let mut dag = diamond();
    let edges = dag.edges.len();
    assert_eq!(
        dag.connect(Endpoint::new(handle("nobody"), 1), Endpoint::new(handle("join"), 10)),
        Err(ExecutionError::InvalidNodeHandle(handle("nobody")))
    );
    assert_eq!(
        dag.connect(Endpoint::new(handle("users"), 1), Endpoint::new(handle("nowhere"), 10)),
        Err(ExecutionError::InvalidNodeHandle(handle("nowhere")))
    );
    assert_eq!(
        dag.connect(Endpoint::new(handle("users"), 9), Endpoint::new(handle("join"), 10)),
        Err(ExecutionError::InvalidPortHandle(9))
    );
    assert_eq!(
        dag.connect(Endpoint::new(handle("users"), 1), Endpoint::new(handle("join"), 11)),
        Err(ExecutionError::InvalidPortHandle(11))
    );
    // a sink has no output, a source no input
    assert_eq!(
        dag.connect(Endpoint::new(handle("cache"), DEFAULT_PORT_HANDLE), Endpoint::new(handle("join"), 10)),
        Err(ExecutionError::InvalidPortHandle(DEFAULT_PORT_HANDLE))
    );
    assert_eq!(
        dag.connect(Endpoint::new(handle("join"), 30), Endpoint::new(handle("users"), 1)),
        Err(ExecutionError::InvalidPortHandle(1))
    );
    assert_eq!(dag.edges.len(), edges);
    assert_eq!(
        dag.edges[0],
        Edge::new(Endpoint::new(handle("users"), 1), Endpoint::new(handle("join"), 10))
    );
}

#[test]
fn add_node_replaces_a_node_of_the_same_handle() {
    let mut dag = diamond();
    dag.add_node(Node::processor(handle("join"), vec![10], vec![stateless(30), stateless(31)]));
    assert_eq!(dag.nodes.len(), 5);
    assert_eq!(dag.node_index(&handle("join")), Some(2));
    assert!(dag.nodes[2].declares_output(31));
    assert!(!dag.nodes[2].declares_input(20));
    assert!(dag.nodes[2].declares_input(10));
    assert!(!dag.nodes[2].declares_output(10));
}

#[test]
fn channels_are_numbered_by_their_edges() {
    let dag = diamond();
    assert_eq!(senders_of(&dag, &handle("users")), vec![ChannelEnd { port: 1, channel: 0 }]);
    assert_eq!(senders_of(&dag, &handle("departments")), vec![ChannelEnd { port: 2, channel: 1 }]);
    assert_eq!(
        senders_of(&dag, &handle("join")),
        vec![ChannelEnd { port: 30, channel: 2 }, ChannelEnd { port: 30, channel: 3 }]
    );
    assert_eq!(
        receivers_of(&dag, &handle("join")),
        vec![ChannelEnd { port: 10, channel: 0 }, ChannelEnd { port: 20, channel: 1 }]
    );
    assert_eq!(receivers_of(&dag, &handle("log")), vec![ChannelEnd { port: DEFAULT_PORT_HANDLE, channel: 3 }]);
    assert_eq!(senders_of(&dag, &handle("log")), vec![]);
    assert_eq!(receivers_of(&dag, &handle("users")), vec![]);
}
