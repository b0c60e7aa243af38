//! Connectors: where the rows of a pipeline come from.

use crate::errors::{ConnectorError, IngestorError};
use crate::ingestion_types::{
    IngestionMessage, IngestionOperation, IngestorForwarder, OperationEvent, SnowflakeConfig,
};
use crate::types::Schema;
use vstd::prelude::*;

verus! {

/// A table of a source, with the columns that are read from it.
#[derive(Debug, PartialEq, Eq)]
pub struct TableInfo {
    pub name: String,
    pub id: u32,
    pub columns: Option<Vec<String>>,
}

/// Takes the messages of a connector and hands the changes of rows on.
#[derive(Debug)]
pub struct Ingestor<F: IngestorForwarder> {
    pub sender: F,
}

impl<F: IngestorForwarder> Ingestor<F> {
    pub fn new(sender: F) -> (ingestor: Self)
        ensures
            ingestor.sender == sender,
    {
        Self { sender }
    }

    /// Takes a message of a connector. A change of a row is handed to the
    /// forwarder, whose answer is the answer to the message; the start and
    /// the end of a transaction are taken and not handed on.
    pub fn handle_message(&mut self, msg: ((u64, u64), IngestionMessage)) -> (result: Result<(), IngestorError>)
        ensures
            final(self).sender == old(self).sender,
            match msg.1 {
                IngestionMessage::OperationEvent(event) => old(self).sender.answers(
                    (msg.0, IngestionOperation::OperationEvent(event)),
                    result,
                ),
                IngestionMessage::Begin() => result is Ok,
                IngestionMessage::Commit(_) => result is Ok,
            },
    {
        let (connector_id, message) = msg;
        match message {
            IngestionMessage::OperationEvent(event) => self.sender.forward(
                (connector_id, IngestionOperation::OperationEvent(event)),
            ),
            IngestionMessage::Begin() => Ok(()),
            IngestionMessage::Commit(_) => Ok(()),
        }
    }
}

/// A connector to which the program itself pushes its messages.
#[derive(Debug)]
pub struct EventsConnector<F: IngestorForwarder> {
    pub id: u64,
    pub name: String,
    pub ingestor: Option<Ingestor<F>>,
}

impl<F: IngestorForwarder> EventsConnector<F> {
    /// A connector that has no ingestor yet.
    pub fn new(id: u64, name: String) -> (connector: Self)
        ensures
            connector.id == id,
            connector.name == name,
            connector.ingestor is None,
    {
        Self { id, name, ingestor: None }
    }

    /// Hands `msg` to the ingestor. Before the connector has one, the answer
    /// is `InitializationError`.
    pub fn push(&mut self, msg: IngestionMessage) -> (result: Result<(), ConnectorError>)
        ensures
            final(self).id == old(self).id,
            final(self).name == old(self).name,
            final(self).ingestor is Some <==> old(self).ingestor is Some,
            match old(self).ingestor {
                None => result == Err::<(), ConnectorError>(ConnectorError::InitializationError),
                Some(_) => if msg is OperationEvent {
                    exists|answer: Result<(), IngestorError>| result == #[trigger] answer_of(answer)
                } else {
                    result is Ok
                },
            },
    {
        match &mut self.ingestor {
            None => Err(ConnectorError::InitializationError),
            Some(ingestor) => {
                let answer = ingestor.handle_message(((0, 0), msg));
                answer_to_push(answer)
            },
        }
    }

    /// The schemas of the tables: a connector of events has none.
    pub fn get_schemas(&self, _table_names: Option<Vec<TableInfo>>) -> (schemas: Result<
        Vec<(String, Schema)>,
        ConnectorError,
    >)
        ensures
            schemas matches Ok(found) && found@.len() == 0,
    {
        Ok(Vec::new())
    }

    /// The tables: a connector of events has none.
    pub fn get_tables(&self) -> (tables: Result<Vec<TableInfo>, ConnectorError>)
        ensures
            tables matches Ok(found) && found@.len() == 0,
    {
        Ok(Vec::new())
    }

    /// Gives the connector its ingestor.
    pub fn initialize(&mut self, ingestor: Ingestor<F>, _tables: Option<Vec<TableInfo>>) -> (done: Result<
        (),
        ConnectorError,
    >)
        ensures
            done is Ok,
            final(self).id == old(self).id,
            final(self).name == old(self).name,
            final(self).ingestor == Some(ingestor),
    {
        self.ingestor = Some(ingestor);
        Ok(())
    }

    /// All sources of a connector of events are read together, as one group.
    pub fn get_connection_groups<S>(sources: Vec<S>) -> (groups: Vec<Vec<S>>)
        ensures
            groups@ == seq![sources],
    {
        let mut groups: Vec<Vec<S>> = Vec::new();
        groups.push(sources);
        groups
    }
}

/// The answer of a connector for an answer of its ingestor.
pub open spec fn answer_of(answer: Result<(), IngestorError>) -> Result<(), ConnectorError> {
    match answer {
        Ok(()) => Ok(()),
        Err(e) => Err(ConnectorError::IngestorError(e)),
    }
}

/// The answer of a connector for an answer of its ingestor: a failure of
/// the ingestor is a failure of the connector.
pub fn answer_to_push(answer: Result<(), IngestorError>) -> (result: Result<(), ConnectorError>)
    ensures
        result == answer_of(answer),
{
    match answer {
        Ok(()) => Ok(()),
        Err(e) => Err(ConnectorError::IngestorError(e)),
    }
}

/// A connector to Snowflake.
#[derive(Debug)]
pub struct SnowflakeConnector<F: IngestorForwarder> {
    pub id: u64,
    pub config: SnowflakeConfig,
    pub ingestor: Option<Ingestor<F>>,
    pub tables: Option<Vec<TableInfo>>,
}

impl<F: IngestorForwarder> SnowflakeConnector<F> {
    /// A connector that has neither ingestor nor tables yet.
    pub fn new(id: u64, config: SnowflakeConfig) -> (connector: Self)
        ensures
            connector.id == id,
            connector.config == config,
            connector.ingestor is None,
            connector.tables is None,
    {
        Self { id, config, ingestor: None, tables: None }
    }

    /// Gives the connector its ingestor and the tables to read.
    pub fn initialize(&mut self, ingestor: Ingestor<F>, tables: Option<Vec<TableInfo>>) -> (done: Result<
        (),
        ConnectorError,
    >)
        ensures
            done is Ok,
            final(self).id == old(self).id,
            final(self).config == old(self).config,
            final(self).ingestor == Some(ingestor),
            final(self).tables == tables,
    {
        self.ingestor = Some(ingestor);
        self.tables = tables;
        Ok(())
    }

    /// Whether the connector can start: it can once it has its ingestor.
    pub fn ready_to_start(&self) -> (ready: Result<(), ConnectorError>)
        ensures
            self.ingestor is Some ==> ready is Ok,
            self.ingestor is None ==> ready == Err::<(), ConnectorError>(ConnectorError::InitializationError),
    {
        match &self.ingestor {
            Some(_) => Ok(()),
            None => Err(ConnectorError::InitializationError),
        }
    }

    /// Each source of a Snowflake connector is read on its own: every
    /// source is a group of one.
    pub fn get_connection_groups<S>(sources: Vec<S>) -> (groups: Vec<Vec<S>>)
        ensures
            groups@.len() == sources@.len(),
            forall|i: int| 0 <= i < sources@.len() ==> (#[trigger] groups@[i])@ == seq![sources@[i]],
    {
        let mut sources = sources;
        let ghost all = sources@;
        let mut groups: Vec<Vec<S>> = Vec::new();
        while sources.len() > 0
            invariant
                sources@.len() <= all.len(),
                sources@ == all.subrange(0, sources@.len() as int),
                groups@.len() == all.len() - sources@.len(),
                forall|i: int|
                    0 <= i < groups@.len() ==> (#[trigger] groups@[i])@ == seq![all[sources@.len() + i]],
            decreases sources@.len(),
        {
            let ghost before = groups@;
            let source = sources.pop().unwrap();
            let mut group: Vec<S> = Vec::new();
            group.push(source);
            groups.insert(0, group);
            proof {
                assert(sources@ =~= all.subrange(0, sources@.len() as int));
                assert forall|i: int| 0 <= i < groups@.len() implies (#[trigger] groups@[i])@ == seq![
                    all[sources@.len() + i],
                ] by {
                    if i > 0 {
                        assert(groups@[i] == before[i - 1]);
                    }
                }
            }
        }
        groups
    }
}

} // verus!
