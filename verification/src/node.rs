//! The identities of nodes and ports, and what an output port keeps of its rows.

use vstd::prelude::*;

verus! {

/// The identity of a port of a node.
pub type PortHandle = u16;

/// The port that a node with one input or one output uses.
pub const DEFAULT_PORT_HANDLE: PortHandle = 0xffff;

/// The identity of a node of a graph: an optional namespace and a name.
#[derive(Debug, PartialEq, Eq, Hash)]
pub struct NodeHandle {
    pub ns: Option<u16>,
    pub id: String,
}

/// What a `NodeHandle` holds, as mathematical values.
pub struct NodeHandleView {
    pub ns: Option<u16>,
    pub id: Seq<char>,
}

impl View for NodeHandle {
    type V = NodeHandleView;

    open spec fn view(&self) -> NodeHandleView {
        NodeHandleView { ns: self.ns, id: self.id@ }
    }
}

impl NodeHandle {
    pub fn new(ns: Option<u16>, id: String) -> (handle: Self)
        ensures
            handle@ == (NodeHandleView { ns, id: id@ }),
    {
        Self { ns, id }
    }

    /// Whether both handles name the same node.
    pub fn same_as(&self, other: &NodeHandle) -> (same: bool)
        ensures
            same == (self@ == other@),
    {
        let same_ns = match (&self.ns, &other.ns) {
            (Some(a), Some(b)) => *a == *b,
            (None, None) => true,
            _ => false,
        };
        same_ns && self.id == other.id
    }
}

impl Clone for NodeHandle {
    fn clone(&self) -> (copy: Self)
        ensures
            copy@ == self@,
    {
        Self { ns: self.ns, id: self.id.clone() }
    }
}

/// What an output port keeps of the rows that leave through it.
#[derive(Clone, Copy, Debug, PartialEq, Eq, Structural)]
pub enum OutputPortType {
    /// Nothing is kept.
    Stateless,
    /// The latest row of each primary key is kept; the flags say whether a
    /// delete or an update is handed on with the row that was kept before it.
    StatefulWithPrimaryKeyLookup { retr_old_records_for_deletes: bool, retr_old_records_for_updates: bool },
    /// Every row is kept under a row number of its own; rows are only added.
    AutogenRowKeyLookup,
}

/// An output port of a node.
#[derive(Clone, Copy, Debug, PartialEq, Eq, Structural)]
pub struct OutputPortDef {
    pub handle: PortHandle,
    pub typ: OutputPortType,
}

impl OutputPortDef {
    pub fn new(handle: PortHandle, typ: OutputPortType) -> (def: Self)
        ensures
            def == (OutputPortDef { handle, typ }),
    {
        Self { handle, typ }
    }
}

} // verus!
