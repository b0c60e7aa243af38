//! The schemas of the ports of a node.

use crate::node::PortHandle;
use crate::types::{Schema, SchemaView};
use vstd::prelude::*;

verus! {

/// The schema of the rows of one port.
#[derive(Debug, PartialEq, Eq)]
pub struct PortSchema {
    pub port: PortHandle,
    pub schema: Schema,
}

impl PortSchema {
    pub fn new(port: PortHandle, schema: Schema) -> (entry: Self)
        ensures
            entry.port == port,
            entry.schema == schema,
    {
        Self { port, schema }
    }
}

impl Clone for PortSchema {
    fn clone(&self) -> (copy: Self)
        ensures
            copy.port == self.port,
            copy.schema@ == self.schema@,
    {
        Self { port: self.port, schema: self.schema.clone() }
    }
}

/// The ports of a list with the views of their schemas.
pub open spec fn port_schema_views(ports: Seq<PortSchema>) -> Seq<(PortHandle, SchemaView)> {
    Seq::new(ports.len(), |i: int| (ports[i].port, ports[i].schema@))
}

/// The schema that the list gives for `port`: that of the first entry of the port.
pub open spec fn schema_at(ports: Seq<PortSchema>, port: PortHandle) -> Option<SchemaView>
    decreases ports.len(),
{
    if ports.len() == 0 {
        None
    } else if ports[0].port == port {
        Some(ports[0].schema@)
    } else {
        schema_at(ports.skip(1), port)
    }
}

/// The schema that the list gives for `port`.
pub fn find_schema(ports: &Vec<PortSchema>, port: PortHandle) -> (found: Option<&Schema>)
    ensures
        match found {
            Some(schema) => schema_at(ports@, port) == Some(schema@),
            None => schema_at(ports@, port) is None,
        },
{
    let mut i: usize = 0;
    proof {
        assert(ports@.skip(0) =~= ports@);
    }
    while i < ports.len()
        invariant
            i <= ports@.len(),
            schema_at(ports@, port) == schema_at(ports@.skip(i as int), port),
        decreases ports@.len() - i,
    {
        proof {
            assert(ports@.skip(i as int)[0] == ports@[i as int]);
            assert(ports@.skip(i as int).skip(1) =~= ports@.skip(i + 1));
        }
        if ports[i].port == port {
            return Some(&ports[i].schema);
        }
        i = i + 1;
    }
    None
}

/// The schemas of the input and of the output ports of a node.
#[derive(Debug, PartialEq, Eq)]
pub struct NodeSchemas {
    pub input_schemas: Vec<PortSchema>,
    pub output_schemas: Vec<PortSchema>,
}

/// What a `NodeSchemas` holds, as mathematical values.
pub struct NodeSchemasView {
    pub input_schemas: Seq<(PortHandle, SchemaView)>,
    pub output_schemas: Seq<(PortHandle, SchemaView)>,
}

impl View for NodeSchemas {
    type V = NodeSchemasView;

    open spec fn view(&self) -> NodeSchemasView {
        NodeSchemasView {
            input_schemas: port_schema_views(self.input_schemas@),
            output_schemas: port_schema_views(self.output_schemas@),
        }
    }
}

impl NodeSchemas {
    /// No schemas.
    pub fn new() -> (schemas: Self)
        ensures
            schemas.input_schemas@.len() == 0,
            schemas.output_schemas@.len() == 0,
    {
        Self { input_schemas: Vec::new(), output_schemas: Vec::new() }
    }

    pub fn from(input_schemas: Vec<PortSchema>, output_schemas: Vec<PortSchema>) -> (schemas: Self)
        ensures
            schemas.input_schemas == input_schemas,
            schemas.output_schemas == output_schemas,
    {
        Self { input_schemas, output_schemas }
    }
}

} // verus!
