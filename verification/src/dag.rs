//! The graph of a pipeline: sources, processors and sinks, and the edges that
//! lead from an output port of one node to an input port of another.

use crate::errors::ExecutionError;
use crate::node::{NodeHandle, NodeHandleView, OutputPortDef, PortHandle};
use vstd::prelude::*;

verus! {

/// The role of a node.
#[derive(Clone, Copy, Debug, PartialEq, Eq, Structural)]
pub enum NodeKind {
    Source,
    Processor,
    Sink,
}

/// A node with the ports that it declares.
#[derive(Debug, PartialEq, Eq)]
pub struct Node {
    pub handle: NodeHandle,
    pub kind: NodeKind,
    pub input_ports: Vec<PortHandle>,
    pub output_ports: Vec<OutputPortDef>,
}

impl Node {
    /// A source with these output ports.
    pub fn source(handle: NodeHandle, output_ports: Vec<OutputPortDef>) -> (node: Self)
        ensures
            node.handle == handle,
            node.kind == NodeKind::Source,
            node.input_ports@ == Seq::<PortHandle>::empty(),
            node.output_ports == output_ports,
    {
        Self { handle, kind: NodeKind::Source, input_ports: Vec::new(), output_ports }
    }

    /// A processor with these input and output ports.
    pub fn processor(handle: NodeHandle, input_ports: Vec<PortHandle>, output_ports: Vec<OutputPortDef>) -> (node:
        Self)
        ensures
            node.handle == handle,
            node.kind == NodeKind::Processor,
            node.input_ports == input_ports,
            node.output_ports == output_ports,
    {
        Self { handle, kind: NodeKind::Processor, input_ports, output_ports }
    }

    /// A sink with these input ports.
    pub fn sink(handle: NodeHandle, input_ports: Vec<PortHandle>) -> (node: Self)
        ensures
            node.handle == handle,
            node.kind == NodeKind::Sink,
            node.input_ports == input_ports,
            node.output_ports@ == Seq::<OutputPortDef>::empty(),
    {
        Self { handle, kind: NodeKind::Sink, input_ports, output_ports: Vec::new() }
    }

    /// Whether the node declares the input port `port`.
    pub open spec fn has_input(&self, port: PortHandle) -> bool {
        self.input_ports@.contains(port)
    }

    /// Whether the node declares the output port `port`.
    pub open spec fn has_output(&self, port: PortHandle) -> bool {
        exists|i: int| 0 <= i < self.output_ports@.len() && (#[trigger] self.output_ports@[i]).handle == port
    }

    /// Whether the node declares the input port `port`.
    pub fn declares_input(&self, port: PortHandle) -> (declared: bool)
        ensures
            declared == self.has_input(port),
    {
        let mut i: usize = 0;
        while i < self.input_ports.len()
            invariant
                i <= self.input_ports@.len(),
                forall|k: int| 0 <= k < i ==> self.input_ports@[k] != port,
            decreases self.input_ports@.len() - i,
        {
            if self.input_ports[i] == port {
                return true;
            }
            i = i + 1;
        }
        false
    }

    /// Whether the node declares the output port `port`.
    pub fn declares_output(&self, port: PortHandle) -> (declared: bool)
        ensures
            declared == self.has_output(port),
    {
        let mut i: usize = 0;
        while i < self.output_ports.len()
            invariant
                i <= self.output_ports@.len(),
                forall|k: int| 0 <= k < i ==> (#[trigger] self.output_ports@[k]).handle != port,
            decreases self.output_ports@.len() - i,
        {
            if self.output_ports[i].handle == port {
                return true;
            }
            i = i + 1;
        }
        false
    }
}

/// A port of a node.
#[derive(Debug, PartialEq, Eq)]
pub struct Endpoint {
    pub node: NodeHandle,
    pub port: PortHandle,
}

impl Endpoint {
    pub fn new(node: NodeHandle, port: PortHandle) -> (endpoint: Self)
        ensures
            endpoint.node == node,
            endpoint.port == port,
    {
        Self { node, port }
    }
}

/// An edge from an output port to an input port.
#[derive(Debug, PartialEq, Eq)]
pub struct Edge {
    pub from: Endpoint,
    pub to: Endpoint,
}

impl Edge {
    pub fn new(from: Endpoint, to: Endpoint) -> (edge: Self)
        ensures
            edge.from == from,
            edge.to == to,
    {
        Self { from, to }
    }
}

/// The place of the node with `handle` among `nodes`, if there is one.
pub open spec fn position_of(nodes: Seq<Node>, handle: NodeHandleView) -> Option<int> {
    if exists|i: int| 0 <= i < nodes.len() && (#[trigger] nodes[i]).handle@ == handle {
        Some(choose|i: int| 0 <= i < nodes.len() && (#[trigger] nodes[i]).handle@ == handle)
    } else {
        None
    }
}

/// No two nodes have the same handle.
pub open spec fn distinct_handles(nodes: Seq<Node>) -> bool {
    forall|i: int, j: int| 0 <= i < j < nodes.len() ==> (#[trigger] nodes[i]).handle@ != (#[trigger] nodes[j]).handle@
}

/// The handles of the nodes of one kind, in the order of the nodes.
pub open spec fn handles_of_kind(nodes: Seq<Node>, kind: NodeKind) -> Seq<NodeHandleView>
    decreases nodes.len(),
{
    if nodes.len() == 0 {
        Seq::empty()
    } else {
        let front = handles_of_kind(nodes.drop_last(), kind);
        if nodes.last().kind == kind {
            front.push(nodes.last().handle@)
        } else {
            front
        }
    }
}

/// The views of a list of handles.
pub open spec fn handle_views(handles: Seq<NodeHandle>) -> Seq<NodeHandleView> {
    Seq::new(handles.len(), |i: int| handles[i]@)
}

/// How a try to connect two ports ends.
pub enum Connection {
    /// The edge is added.
    Connected,
    /// The graph has no node of this handle.
    NoSuchNode(NodeHandleView),
    /// The node has no such port.
    NoSuchPort(PortHandle),
}

/// What `connect` finds for an edge from `from` to `to` among `nodes`.
pub open spec fn connection(nodes: Seq<Node>, from: Endpoint, to: Endpoint) -> Connection {
    match position_of(nodes, from.node@) {
        None => Connection::NoSuchNode(from.node@),
        Some(src) => match position_of(nodes, to.node@) {
            None => Connection::NoSuchNode(to.node@),
            Some(dst) => if !nodes[src].has_output(from.port) {
                Connection::NoSuchPort(from.port)
            } else if !nodes[dst].has_input(to.port) {
                Connection::NoSuchPort(to.port)
            } else {
                Connection::Connected
            },
        },
    }
}

/// The graph of a pipeline.
#[derive(Debug)]
pub struct Dag {
    pub nodes: Vec<Node>,
    pub edges: Vec<Edge>,
}

impl Dag {
    /// No two nodes of the graph have the same handle.
    pub open spec fn wf(&self) -> bool {
        distinct_handles(self.nodes@)
    }

    /// A graph without nodes.
    pub fn new() -> (dag: Self)
        ensures
            dag.wf(),
            dag.nodes@.len() == 0,
            dag.edges@.len() == 0,
    {
        Self { nodes: Vec::new(), edges: Vec::new() }
    }

    /// The place of the node with `handle`.
    pub fn node_index(&self, handle: &NodeHandle) -> (found: Option<usize>)
        requires
            self.wf(),
        ensures
            match found {
                Some(i) => i < self.nodes@.len() && self.nodes@[i as int].handle@ == handle@ && position_of(
                    self.nodes@,
                    handle@,
                ) == Some(i as int),
                None => position_of(self.nodes@, handle@) is None,
            },
    {
        let mut i: usize = 0;
        while i < self.nodes.len()
            invariant
                self.wf(),
                i <= self.nodes@.len(),
                forall|k: int| 0 <= k < i ==> (#[trigger] self.nodes@[k]).handle@ != handle@,
            decreases self.nodes@.len() - i,
        {
            if self.nodes[i].handle.same_as(handle) {
                proof {
                    let j = choose|j: int| 0 <= j < self.nodes@.len() && (#[trigger] self.nodes@[j]).handle@
                        == handle@;
                    if j < i {
                        assert(self.nodes@[j].handle@ != handle@);
                    } else if j > i {
                        assert(self.nodes@[i as int].handle@ != self.nodes@[j].handle@);
                    }
                }
                return Some(i);
            }
            i = i + 1;
        }
        None
    }

    /// Adds `node` to the graph, in place of a node with the same handle
    /// where the graph has one.
    pub fn add_node(&mut self, node: Node)
        requires
            old(self).wf(),
        ensures
            final(self).wf(),
            final(self).edges == old(self).edges,
            match position_of(old(self).nodes@, node.handle@) {
                Some(i) => final(self).nodes@ == old(self).nodes@.update(i, node),
                None => final(self).nodes@ == old(self).nodes@.push(node),
            },
    {
        match self.node_index(&node.handle) {
            Some(i) => {
                self.nodes[i] = node;
                proof {
                    assert forall|a: int, b: int| 0 <= a < b < self.nodes@.len() implies (
                    #[trigger] self.nodes@[a]).handle@ != (#[trigger] self.nodes@[b]).handle@ by {
                        assert(old(self).nodes@[a].handle@ != old(self).nodes@[b].handle@);
                    }
                }
            },
            None => {
                self.nodes.push(node);
                proof {
                    assert forall|a: int, b: int| 0 <= a < b < self.nodes@.len() implies (
                    #[trigger] self.nodes@[a]).handle@ != (#[trigger] self.nodes@[b]).handle@ by {
                        if b == self.nodes@.len() - 1 {
                            assert(old(self).nodes@[a].handle@ != node.handle@);
                        } else {
                            assert(old(self).nodes@[a].handle@ != old(self).nodes@[b].handle@);
                        }
                    }
                }
            },
        }
    }

    /// Adds the edge from `from` to `to`. Fails where one of the two nodes
    /// is not in the graph or does not declare the port.
    pub fn connect(&mut self, from: Endpoint, to: Endpoint) -> (done: Result<(), ExecutionError>)
        requires
            old(self).wf(),
        ensures
            final(self).wf(),
            final(self).nodes == old(self).nodes,
            match connection(old(self).nodes@, from, to) {
                Connection::Connected => done is Ok && final(self).edges@ == old(self).edges@.push(Edge { from, to }),
                Connection::NoSuchNode(handle) => done matches Err(ExecutionError::InvalidNodeHandle(h)) && h@
                    == handle && final(self).edges == old(self).edges,
                Connection::NoSuchPort(port) => done == Err::<(), ExecutionError>(
                    ExecutionError::InvalidPortHandle(port),
                ) && final(self).edges == old(self).edges,
            },
    {
        let src = match self.node_index(&from.node) {
            Some(src) => src,
            None => {
                return Err(ExecutionError::InvalidNodeHandle(from.node.clone()));
            },
        };
        let dst = match self.node_index(&to.node) {
            Some(dst) => dst,
            None => {
                return Err(ExecutionError::InvalidNodeHandle(to.node.clone()));
            },
        };
        if !self.nodes[src].declares_output(from.port) {
            return Err(ExecutionError::InvalidPortHandle(from.port));
        }
        if !self.nodes[dst].declares_input(to.port) {
            return Err(ExecutionError::InvalidPortHandle(to.port));
        }
        self.edges.push(Edge { from, to });
        Ok(())
    }

    /// The handles of the nodes of one kind, in the order in which they were added.
    pub fn handles(&self, kind: NodeKind) -> (found: Vec<NodeHandle>)
        ensures
            handle_views(found@) == handles_of_kind(self.nodes@, kind),
    {
        let mut found: Vec<NodeHandle> = Vec::new();
        let mut i: usize = 0;
        proof {
            assert(self.nodes@.subrange(0, 0) =~= Seq::<Node>::empty());
            assert(handle_views(found@) =~= Seq::<NodeHandleView>::empty());
        }
        while i < self.nodes.len()
            invariant
                i <= self.nodes@.len(),
                handle_views(found@) == handles_of_kind(self.nodes@.subrange(0, i as int), kind),
            decreases self.nodes@.len() - i,
        {
            proof {
                let next = self.nodes@.subrange(0, i + 1);
                assert(next.drop_last() =~= self.nodes@.subrange(0, i as int));
                assert(next.last() == self.nodes@[i as int]);
            }
            if self.nodes[i].kind == kind {
                let handle = self.nodes[i].handle.clone();
                proof {
                    assert(handle_views(found@.push(handle)) =~= handle_views(found@).push(handle@));
                }
                found.push(handle);
            }
            i = i + 1;
        }
        proof {
            assert(self.nodes@.subrange(0, i as int) =~= self.nodes@);
        }
        found
    }

    /// The handles of the sources.
    pub fn get_sources(&self) -> (found: Vec<NodeHandle>)
        ensures
            handle_views(found@) == handles_of_kind(self.nodes@, NodeKind::Source),
    {
        self.handles(NodeKind::Source)
    }

    /// The handles of the processors.
    pub fn get_processors(&self) -> (found: Vec<NodeHandle>)
        ensures
            handle_views(found@) == handles_of_kind(self.nodes@, NodeKind::Processor),
    {
        self.handles(NodeKind::Processor)
    }

    /// The handles of the sinks.
    pub fn get_sinks(&self) -> (found: Vec<NodeHandle>)
        ensures
            handle_views(found@) == handles_of_kind(self.nodes@, NodeKind::Sink),
    {
        self.handles(NodeKind::Sink)
    }
}

/// One end of a channel at a node: the port, and the number of the edge
/// whose channel it is.
#[derive(Clone, Copy, Debug, PartialEq, Eq, Structural)]
pub struct ChannelEnd {
    pub port: PortHandle,
    pub channel: usize,
}

/// The ends of the channels of the first `upto` edges that leave `node`
/// (`outgoing`) or reach it, in the order of the edges. Each edge has one
/// channel, numbered by the place of the edge.
pub open spec fn channel_ends(edges: Seq<Edge>, node: NodeHandleView, outgoing: bool, upto: int) -> Seq<ChannelEnd>
    decreases upto,
{
    if upto <= 0 {
        Seq::empty()
    } else {
        let front = channel_ends(edges, node, outgoing, upto - 1);
        let edge = edges[upto - 1];
        let end = if outgoing {
            edge.from
        } else {
            edge.to
        };
        if end.node@ == node {
            front.push(ChannelEnd { port: end.port, channel: (upto - 1) as usize })
        } else {
            front
        }
    }
}

/// The sending ends of the channels of a node: one for each edge that
/// leaves it.
pub fn senders_of(dag: &Dag, node: &NodeHandle) -> (ends: Vec<ChannelEnd>)
    ensures
        ends@ == channel_ends(dag.edges@, node@, true, dag.edges@.len() as int),
{
    let mut ends: Vec<ChannelEnd> = Vec::new();
    let mut i: usize = 0;
    while i < dag.edges.len()
        invariant
            i <= dag.edges@.len(),
            ends@ == channel_ends(dag.edges@, node@, true, i as int),
        decreases dag.edges@.len() - i,
    {
        if dag.edges[i].from.node.same_as(node) {
            ends.push(ChannelEnd { port: dag.edges[i].from.port, channel: i });
        }
        i = i + 1;
    }
    ends
}

/// The receiving ends of the channels of a node: one for each edge that
/// reaches it.
pub fn receivers_of(dag: &Dag, node: &NodeHandle) -> (ends: Vec<ChannelEnd>)
    ensures
        ends@ == channel_ends(dag.edges@, node@, false, dag.edges@.len() as int),
{
    let mut ends: Vec<ChannelEnd> = Vec::new();
    let mut i: usize = 0;
    while i < dag.edges.len()
        invariant
            i <= dag.edges@.len(),
            ends@ == channel_ends(dag.edges@, node@, false, i as int),
        decreases dag.edges@.len() - i,
    {
        if dag.edges[i].to.node.same_as(node) {
            ends.push(ChannelEnd { port: dag.edges[i].to.port, channel: i });
        }
        i = i + 1;
    }
    ends
}

} // verus!
