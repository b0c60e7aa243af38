//! What connectors hand to the pipeline, and the settings of the connectors.

use crate::decimal::{decimal_text, u64_to_text};
use crate::errors::IngestorError;
use crate::types::{text, Operation};
use vstd::prelude::*;

verus! {

/// A change of a row with its place in the stream of its source.
#[derive(Debug, PartialEq, Eq)]
pub struct OperationEvent {
    pub seq_no: u64,
    pub operation: Operation,
}

/// The end of a transaction of a source.
#[derive(Clone, Copy, Debug, PartialEq, Eq, Structural)]
pub struct Commit {
    pub seq_no: u64,
    pub lsn: u64,
}

/// What an ingestor hands on to the pipeline.
#[derive(Debug, PartialEq, Eq)]
pub enum IngestionOperation {
    OperationEvent(OperationEvent),
}

/// What a connector hands to its ingestor.
#[derive(Debug, PartialEq, Eq)]
pub enum IngestionMessage {
    Begin(),
    OperationEvent(OperationEvent),
    Commit(Commit),
}

/// Takes the operations of an ingestor to the pipeline.
pub trait IngestorForwarder {
    /// `result` is an answer that this forwarder may give when it is handed
    /// `msg`. A forwarder says for itself which answers it gives; one that
    /// says nothing may give any.
    open spec fn answers(&self, msg: ((u64, u64), IngestionOperation), result: Result<(), IngestorError>) -> bool {
        true
    }

    /// Hands `msg` on.
    fn forward(&self, msg: ((u64, u64), IngestionOperation)) -> (result: Result<(), IngestorError>)
        ensures
            self.answers(msg, result),
    ;
}

/// One cell of a table of settings.
#[derive(Debug, PartialEq, Eq)]
pub enum Cell {
    Text(String),
    /// A column of texts, one below the other.
    List(Vec<String>),
}

/// One row of a table of settings: what the setting is called, and its value.
#[derive(Debug, PartialEq, Eq)]
pub struct Row {
    pub label: String,
    pub cell: Cell,
}

/// A cell, as a mathematical value.
pub enum CellView {
    Text(Seq<char>),
    List(Seq<Seq<char>>),
}

/// The texts of a list of strings.
pub open spec fn string_views(strings: Seq<String>) -> Seq<Seq<char>> {
    Seq::new(strings.len(), |i: int| strings[i]@)
}

impl View for Row {
    type V = (Seq<char>, CellView);

    open spec fn view(&self) -> (Seq<char>, CellView) {
        (
            self.label@,
            match self.cell {
                Cell::Text(words) => CellView::Text(words@),
                Cell::List(items) => CellView::List(string_views(items@)),
            },
        )
    }
}

/// The views of the rows of a table.
pub open spec fn row_views(rows: Seq<Row>) -> Seq<(Seq<char>, CellView)> {
    Seq::new(rows.len(), |i: int| rows[i]@)
}

/// A row with a text.
pub open spec fn text_row(label: Seq<char>, words: Seq<char>) -> (Seq<char>, CellView) {
    (label, CellView::Text(words))
}

fn make_row(label: &str, words: String) -> (row: Row)
    ensures
        row@ == text_row(label@, words@),
{
    Row { label: text(label), cell: Cell::Text(words) }
}

/// A copy of a list of strings.
pub fn clone_strings(strings: &Vec<String>) -> (copy: Vec<String>)
    ensures
        string_views(copy@) == string_views(strings@),
{
    let mut copy: Vec<String> = Vec::new();
    let mut i: usize = 0;
    while i < strings.len()
        invariant
            i <= strings@.len(),
            copy@.len() == i,
            forall|k: int| 0 <= k < i ==> copy@[k]@ == strings@[k]@,
        decreases strings@.len() - i,
    {
        copy.push(strings[i].clone());
        i = i + 1;
    }
    assert(string_views(copy@) =~= string_views(strings@));
    copy
}

/// Which logs of a chain are read.
#[derive(Debug, PartialEq, Eq, Hash)]
pub struct EthFilter {
    /// The first block to read.
    pub from_block: Option<u64>,
    pub to_block: Option<u64>,
    pub addresses: Vec<String>,
    pub topics: Vec<String>,
}

/// The text of an optional block number: the number in decimal, or seven
/// dashes where there is none.
pub open spec fn block_text(block: Option<u64>) -> Seq<char> {
    match block {
        Some(number) => decimal_text(number as nat),
        None => "-------"@,
    }
}

fn block_words(block: Option<u64>) -> (words: String)
    ensures
        words@ == block_text(block),
{
    match block {
        Some(number) => u64_to_text(number),
        None => text("-------"),
    }
}

impl EthFilter {
    /// The filter as a table: the two block numbers, the addresses and the topics.
    pub fn convert_to_table(&self) -> (table: Vec<Row>)
        ensures
            row_views(table@) == seq![
                text_row("from_block"@, block_text(self.from_block)),
                text_row("to_block"@, block_text(self.to_block)),
                ("addresses"@, CellView::List(string_views(self.addresses@))),
                ("topics"@, CellView::List(string_views(self.topics@))),
            ],
    {
        let mut table: Vec<Row> = Vec::new();
        table.push(make_row("from_block", block_words(self.from_block)));
        table.push(make_row("to_block", block_words(self.to_block)));
        table.push(Row { label: text("addresses"), cell: Cell::List(clone_strings(&self.addresses)) });
        table.push(Row { label: text("topics"), cell: Cell::List(clone_strings(&self.topics)) });
        assert(row_views(table@) =~= seq![
            text_row("from_block"@, block_text(self.from_block)),
            text_row("to_block"@, block_text(self.to_block)),
            ("addresses"@, CellView::List(string_views(self.addresses@))),
            ("topics"@, CellView::List(string_views(self.topics@))),
        ]);
        table
    }
}

/// A contract whose events are read.
#[derive(Debug, PartialEq, Eq, Hash)]
pub struct EthContract {
    pub name: String,
    pub address: String,
    pub abi: String,
}

/// The settings of a connector to a chain.
#[derive(Debug, PartialEq, Eq, Hash)]
pub struct EthConfig {
    pub filter: Option<EthFilter>,
    pub wss_url: String,
    pub contracts: Vec<EthContract>,
}

impl EthConfig {
    /// The settings as a table: the address of the node and, where a filter
    /// is set, the table of the filter.
    pub fn convert_to_table(&self) -> (table: (Vec<Row>, Option<Vec<Row>>))
        ensures
            row_views(table.0@) == seq![text_row("wss_url"@, self.wss_url@)],
            table.1 is Some <==> self.filter is Some,
            table.1 matches Some(filter_table) ==> row_views(filter_table@) == seq![
                text_row("from_block"@, block_text(self.filter->Some_0.from_block)),
                text_row("to_block"@, block_text(self.filter->Some_0.to_block)),
                ("addresses"@, CellView::List(string_views(self.filter->Some_0.addresses@))),
                ("topics"@, CellView::List(string_views(self.filter->Some_0.topics@))),
            ],
    {
        let mut table: Vec<Row> = Vec::new();
        table.push(make_row("wss_url", self.wss_url.clone()));
        assert(row_views(table@) =~= seq![text_row("wss_url"@, self.wss_url@)]);
        let filter_table = match &self.filter {
            Some(filter) => Some(filter.convert_to_table()),
            None => None,
        };
        (table, filter_table)
    }
}

/// The settings of a connector to Kafka.
#[derive(Debug, PartialEq, Eq, Hash)]
pub struct KafkaConfig {
    pub broker: String,
    pub schema_registry_url: Option<String>,
}

impl KafkaConfig {
    /// The settings as a table; eight dashes stand for a registry that is not set.
    pub fn convert_to_table(&self) -> (table: Vec<Row>)
        ensures
            row_views(table@) == seq![
                text_row("broker"@, self.broker@),
                text_row(
                    "schema registry url"@,
                    match self.schema_registry_url {
                        Some(url) => url@,
                        None => "--------"@,
                    },
                ),
            ],
    {
        let mut table: Vec<Row> = Vec::new();
        table.push(make_row("broker", self.broker.clone()));
        let url = match &self.schema_registry_url {
            Some(url) => url.clone(),
            None => text("--------"),
        };
        table.push(make_row("schema registry url", url));
        assert(row_views(table@) =~= seq![
            text_row("broker"@, self.broker@),
            text_row(
                "schema registry url"@,
                match self.schema_registry_url {
                    Some(url) => url@,
                    None => "--------"@,
                },
            ),
        ]);
        table
    }
}

/// The settings of a connector to Snowflake.
#[derive(Debug, PartialEq, Eq, Hash)]
pub struct SnowflakeConfig {
    pub server: String,
    pub port: String,
    pub user: String,
    pub password: String,
    pub database: String,
    pub schema: String,
    pub warehouse: String,
    pub driver: Option<String>,
}

impl SnowflakeConfig {
    /// The settings as a table. The password is never shown: twelve stars
    /// stand for it. A driver that is not set shows as `default`.
    pub fn convert_to_table(&self) -> (table: Vec<Row>)
        ensures
            row_views(table@) == seq![
                text_row("server"@, self.server@),
                text_row("port"@, self.port@),
                text_row("user"@, self.user@),
                text_row("password"@, "************"@),
                text_row("database"@, self.database@),
                text_row("schema"@, self.schema@),
                text_row("warehouse"@, self.warehouse@),
                text_row(
                    "driver"@,
                    match self.driver {
                        Some(driver) => driver@,
                        None => "default"@,
                    },
                ),
            ],
    {
        let mut table: Vec<Row> = Vec::new();
        table.push(make_row("server", self.server.clone()));
        table.push(make_row("port", self.port.clone()));
        table.push(make_row("user", self.user.clone()));
        table.push(make_row("password", text("************")));
        table.push(make_row("database", self.database.clone()));
        table.push(make_row("schema", self.schema.clone()));
        table.push(make_row("warehouse", self.warehouse.clone()));
        let driver = match &self.driver {
            Some(driver) => driver.clone(),
            None => text("default"),
        };
        table.push(make_row("driver", driver));
        assert(row_views(table@) =~= seq![
            text_row("server"@, self.server@),
            text_row("port"@, self.port@),
            text_row("user"@, self.user@),
            text_row("password"@, "************"@),
            text_row("database"@, self.database@),
            text_row("schema"@, self.schema@),
            text_row("warehouse"@, self.warehouse@),
            text_row(
                "driver"@,
                match self.driver {
                    Some(driver) => driver@,
                    None => "default"@,
                },
            ),
        ]);
        table
    }
}

impl Clone for SnowflakeConfig {
    fn clone(&self) -> (copy: Self)
        ensures
            copy.server@ == self.server@,
            copy.port@ == self.port@,
            copy.user@ == self.user@,
            copy.password@ == self.password@,
            copy.database@ == self.database@,
            copy.schema@ == self.schema@,
            copy.warehouse@ == self.warehouse@,
            copy.driver is Some <==> self.driver is Some,
            copy.driver matches Some(driver) ==> driver@ == self.driver->Some_0@,
    {
        Self {
            server: self.server.clone(),
            port: self.port.clone(),
            user: self.user.clone(),
            password: self.password.clone(),
            database: self.database.clone(),
            schema: self.schema.clone(),
            warehouse: self.warehouse.clone(),
            driver: match &self.driver {
                Some(driver) => Some(driver.clone()),
                None => None,
            },
        }
    }
}

} // verus!
